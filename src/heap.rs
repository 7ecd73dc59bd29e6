use vstd::prelude::*;
use crate::types::Price;

verus! {

broadcast use vstd::seq_lib::group_to_multiset_ensures;

/// Whether `a` ranks no better than `b` on a side where the highest price is
/// best (`highest_first`) or the lowest one is.
pub open spec fn ranks_below(highest_first: bool, a: Price, b: Price) -> bool {
    if highest_first {
        a.0 <= b.0
    } else {
        a.0 >= b.0
    }
}

/// Prices stored from worst to best.
pub open spec fn ranked(highest_first: bool, s: Seq<Price>) -> bool {
    forall|i: int, j: int| 0 <= i < j < s.len() ==> ranks_below(highest_first, s[i], s[j])
}

/// Where `p` goes in a ranked sequence: after every entry that ranks no
/// better than it.
pub open spec fn insert_pos(highest_first: bool, s: Seq<Price>, p: Price) -> nat
    decreases s.len(),
{
    if s.len() == 0 {
        0
    } else if ranks_below(highest_first, s.last(), p) {
        s.len()
    } else {
        insert_pos(highest_first, s.drop_last(), p)
    }
}

/// The ranked sequence `s` with one more entry for `p`.
pub open spec fn with_price(highest_first: bool, s: Seq<Price>, p: Price) -> Seq<Price> {
    s.insert(insert_pos(highest_first, s, p) as int, p)
}

/// The insertion position lies within the sequence.
pub broadcast proof fn lemma_insert_pos_bound(highest_first: bool, s: Seq<Price>, p: Price)
    ensures
        #[trigger] insert_pos(highest_first, s, p) <= s.len(),
    decreases s.len(),
{
    if s.len() > 0 && !ranks_below(highest_first, s.last(), p) {
        lemma_insert_pos_bound(highest_first, s.drop_last(), p);
    }
}

/// Adding a price to a ranked sequence keeps it ranked, adds one entry, and
/// leaves on top the better of the old top and the new price.
pub broadcast proof fn lemma_with_price(highest_first: bool, s: Seq<Price>, p: Price)
    requires
        ranked(highest_first, s),
    ensures
        ranked(highest_first, #[trigger] with_price(highest_first, s, p)),
        with_price(highest_first, s, p).len() == s.len() + 1,
        with_price(highest_first, s, p).last() == if s.len() == 0 || ranks_below(
            highest_first,
            s.last(),
            p,
        ) {
            p
        } else {
            s.last()
        },
    decreases s.len(),
{
    lemma_insert_pos_bound(highest_first, s, p);
    let k = insert_pos(highest_first, s, p) as int;
    let t = with_price(highest_first, s, p);
    if s.len() > 0 && !ranks_below(highest_first, s.last(), p) {
        lemma_insert_pos_bound(highest_first, s.drop_last(), p);
        assert(t[t.len() - 1] == s[s.len() - 1]);
    }
    // the entries that rank below `p` are exactly those before `k`
    lemma_below_prefix(highest_first, s, p);
    assert forall|a: int, b: int| 0 <= a < b < t.len() implies ranks_below(
        highest_first,
        t[a],
        t[b],
    ) by {
        if a < k && b > k {
            assert(t[a] == s[a] && t[b] == s[b - 1]);
        } else if a < k && b == k {
            assert(t[a] == s[a]);
        } else if a == k && b > k {
            assert(t[b] == s[b - 1]);
        } else if a < k {
            assert(t[a] == s[a] && t[b] == s[b]);
        } else {
            assert(t[a] == s[a - 1] && t[b] == s[b - 1]);
        }
    }
}

/// Entries before the insertion position rank below `p`; those from it on
/// do not.
pub proof fn lemma_below_prefix(highest_first: bool, s: Seq<Price>, p: Price)
    requires
        ranked(highest_first, s),
    ensures
        forall|i: int|
            0 <= i < s.len() ==> (ranks_below(highest_first, #[trigger] s[i], p) <==> i
                < insert_pos(highest_first, s, p)),
    decreases s.len(),
{
    if s.len() > 0 {
        let t = s.drop_last();
        if ranks_below(highest_first, s.last(), p) {
            assert forall|i: int| 0 <= i < s.len() implies ranks_below(highest_first, #[trigger] s[i], p) by {
                if i < s.len() - 1 {
                    assert(ranks_below(highest_first, s[i], s[s.len() - 1]));
                }
            }
        } else {
            lemma_below_prefix(highest_first, t, p);
            lemma_insert_pos_bound(highest_first, t, p);
            assert forall|i: int| 0 <= i < s.len() implies (ranks_below(highest_first, #[trigger] s[i], p) <==> i
                < insert_pos(highest_first, s, p)) by {
                if i < s.len() - 1 {
                    assert(t[i] == s[i]);
                }
            }
        }
    }
}

pub broadcast group group_heap_lemmas {
    lemma_insert_pos_bound,
    lemma_with_price,
}

/// In a ranked sequence, the first entry that does not rank below `p` sits
/// at `insert_pos`.
pub proof fn lemma_insert_pos(highest_first: bool, s: Seq<Price>, p: Price, i: int)
    requires
        ranked(highest_first, s),
        0 <= i <= s.len(),
        forall|k: int| 0 <= k < i ==> ranks_below(highest_first, #[trigger] s[k], p),
        i < s.len() ==> !ranks_below(highest_first, s[i], p),
    ensures
        insert_pos(highest_first, s, p) == i,
    decreases s.len(),
{
    if s.len() > 0 {
        if ranks_below(highest_first, s.last(), p) {
            if i < s.len() {
                assert(ranks_below(highest_first, s[i], s[s.len() - 1]));
            }
        } else {
            if i == s.len() {
                assert(ranks_below(highest_first, s[s.len() - 1], p));
            }
            let t = s.drop_last();
            assert forall|k: int| 0 <= k < i implies ranks_below(highest_first, #[trigger] t[k], p) by {
                assert(t[k] == s[k]);
            }
            if i < t.len() {
                assert(t[i] == s[i]);
            }
            lemma_insert_pos(highest_first, t, p, i);
        }
    }
}

/// The best price of a side, or nothing when the side holds none.
pub open spec fn best_of(s: Seq<Price>) -> Option<Price> {
    if s.len() == 0 {
        None
    } else {
        Some(s.last())
    }
}

/// A priority structure of prices for one side of the book. Duplicates are
/// kept: one entry is pushed per resting order. With `HIGHEST_FIRST` the top
/// is the highest price (bids), otherwise the lowest one (asks).
#[derive(Debug)]
pub struct PriceHeap<const HIGHEST_FIRST: bool> {
    prices: Vec<Price>,
}

/// The bid side: the highest price is best.
pub type BidHeap = PriceHeap<true>;

/// The ask side: the lowest price is best.
pub type AskHeap = PriceHeap<false>;

impl<const HIGHEST_FIRST: bool> View for PriceHeap<HIGHEST_FIRST> {
    type V = Seq<Price>;

    /// The entries from worst to best.
    closed spec fn view(&self) -> Seq<Price> {
        self.prices@
    }
}

impl<const HIGHEST_FIRST: bool> PriceHeap<HIGHEST_FIRST> {
    pub open spec fn wf(&self) -> bool {
        ranked(HIGHEST_FIRST, self@)
    }

    pub fn new() -> (h: Self)
        ensures
            h.wf(),
            h@ == Seq::<Price>::empty(),
    {
        PriceHeap { prices: Vec::new() }
    }

    fn ranks_below_exec(a: Price, b: Price) -> (r: bool)
        ensures
            r == ranks_below(HIGHEST_FIRST, a, b),
    {
        if HIGHEST_FIRST {
            a.0 <= b.0
        } else {
            a.0 >= b.0
        }
    }

    /// Adds one entry for `p`, in its ranked place.
    pub fn push(&mut self, p: Price)
        requires
            old(self).wf(),
        ensures
            final(self).wf(),
            final(self)@ == with_price(HIGHEST_FIRST, old(self)@, p),
            insert_pos(HIGHEST_FIRST, old(self)@, p) <= old(self)@.len(),
            final(self)@.to_multiset() == old(self)@.to_multiset().insert(p),
    {
        let n = self.prices.len();
        let mut i: usize = 0;
        while i < n && Self::ranks_below_exec(self.prices[i], p)
            invariant
                n == self@.len(),
                i <= n,
                forall|k: int| 0 <= k < i ==> ranks_below(HIGHEST_FIRST, #[trigger] self@[k], p),
            decreases n - i,
        {
            i = i + 1;
        }
        let ghost before = self@;
        self.prices.insert(i, p);
        proof {
            vstd::seq_lib::to_multiset_insert(before, i as int, p);
            lemma_insert_pos(HIGHEST_FIRST, before, p, i as int);
            assert forall|a: int, b: int| 0 <= a < b < self@.len() implies ranks_below(
                HIGHEST_FIRST,
                self@[a],
                self@[b],
            ) by {
                if a < i && b > i {
                    assert(self@[a] == before[a]);
                    assert(self@[b] == before[b - 1]);
                    assert(ranks_below(HIGHEST_FIRST, before[a], p));
                } else if a == i && b > i {
                    assert(!ranks_below(HIGHEST_FIRST, before[i as int], p));
                    assert(self@[b] == before[b - 1]);
                    if b - 1 > i {
                        assert(ranks_below(HIGHEST_FIRST, before[i as int], before[b - 1]));
                    }
                }
            }
        }
    }

    /// The best price, left in place.
    pub fn peek(&self) -> (r: Option<&Price>)
        ensures
            r is None <==> self@.len() == 0,
            r matches Some(p) ==> Some(*p) == best_of(self@),
    {
        let n = self.prices.len();
        if n == 0 {
            None
        } else {
            Some(&self.prices[n - 1])
        }
    }

    /// Removes and returns the best price.
    pub fn pop(&mut self) -> (r: Option<Price>)
        requires
            old(self).wf(),
        ensures
            final(self).wf(),
            r == best_of(old(self)@),
            old(self)@.len() == 0 ==> final(self)@ == old(self)@,
            old(self)@.len() > 0 ==> final(self)@ == old(self)@.drop_last(),
    {
        self.prices.pop()
    }

    pub fn len(&self) -> (r: usize)
        ensures
            r == self@.len(),
    {
        self.prices.len()
    }

    pub fn is_empty(&self) -> (r: bool)
        ensures
            r == (self@.len() == 0),
    {
        self.prices.len() == 0
    }
}

} // verus!
