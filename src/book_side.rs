use vstd::prelude::*;
use std::collections::HashMap;
use crate::heap::{best_of, ranked, with_price, PriceHeap};
use crate::order::{without, Order, OrderQueue};
use crate::types::{OrderId, Side};

verus! {

broadcast use vstd::std_specs::hash::group_hash_axioms, crate::heap::group_heap_lemmas;

/// The side whose orders a book side holds: bids rank the highest price first.
pub open spec fn side_of(highest_first: bool) -> Side {
    if highest_first {
        Side::Buy
    } else {
        Side::Sell
    }
}


/// The heap entries left once stale tops, prices whose level exists and is
/// empty, are discarded from the top down. A top without any level stops the
/// discarding.
pub open spec fn cleaned(tree: Seq<crate::types::Price>, levels: Map<i64, Seq<OrderId>>) -> Seq<
    crate::types::Price,
>
    decreases tree.len(),
{
    if tree.len() > 0 && levels.contains_key(tree.last().0) && levels[tree.last().0].len() == 0 {
        cleaned(tree.drop_last(), levels)
    } else {
        tree
    }
}

/// What cleaning leaves on top is not a stale entry.
pub proof fn lemma_cleaned_top(tree: Seq<crate::types::Price>, levels: Map<i64, Seq<OrderId>>)
    ensures
        cleaned(tree, levels).len() > 0 ==> !(levels.contains_key(cleaned(tree, levels).last().0)
            && levels[cleaned(tree, levels).last().0].len() == 0),
    decreases tree.len(),
{
    if tree.len() > 0 && levels.contains_key(tree.last().0) && levels[tree.last().0].len() == 0 {
        lemma_cleaned_top(tree.drop_last(), levels);
    }
}

/// Cleaning only takes entries off the top.
pub proof fn lemma_cleaned_prefix(tree: Seq<crate::types::Price>, levels: Map<i64, Seq<OrderId>>)
    ensures
        cleaned(tree, levels).len() <= tree.len(),
        forall|i: int| 0 <= i < cleaned(tree, levels).len() ==> #[trigger] cleaned(tree, levels)[i] == tree[i],
    decreases tree.len(),
{
    if tree.len() > 0 && levels.contains_key(tree.last().0) && levels[tree.last().0].len() == 0 {
        lemma_cleaned_prefix(tree.drop_last(), levels);
    }
}

/// Taking `id` out of a queue keeps exactly the other ids, and keeps them
/// distinct where they were.
pub proof fn lemma_without(s: Seq<OrderId>, id: OrderId)
    ensures
        forall|x: OrderId| #[trigger] without(s, id).contains(x) <==> s.contains(x) && x != id,
        s.no_duplicates() ==> without(s, id).no_duplicates(),
    decreases s.len(),
{
    reveal(Seq::filter);
    if s.len() > 0 {
        let rest = s.drop_last();
        let last = s.last();
        lemma_without(rest, id);
        let wr = without(rest, id);
        assert(without(s, id) == if last != id { wr.push(last) } else { wr });
        assert forall|x: OrderId| s.contains(x) <==> rest.contains(x) || x == last by {
            if s.contains(x) && x != last {
                let i = choose|i: int| 0 <= i < s.len() && s[i] == x;
                assert(rest[i] == x);
            }
            if rest.contains(x) {
                let i = choose|i: int| 0 <= i < rest.len() && rest[i] == x;
                assert(s[i] == x);
            }
            if x == last {
                assert(s[s.len() - 1] == x);
            }
        }
        assert forall|x: OrderId| wr.push(last).contains(x) <==> wr.contains(x) || x == last by {
            if wr.push(last).contains(x) && x != last {
                let i = choose|i: int| 0 <= i < wr.len() + 1 && wr.push(last)[i] == x;
                assert(wr[i] == x);
            }
            if wr.contains(x) {
                let i = choose|i: int| 0 <= i < wr.len() && wr[i] == x;
                assert(wr.push(last)[i] == x);
            }
            if x == last {
                assert(wr.push(last)[wr.len() as int] == x);
            }
        }
        if s.no_duplicates() {
            assert(rest.no_duplicates()) by {
                assert forall|i: int, j: int| 0 <= i < j < rest.len() implies rest[i] != rest[j] by {
                    assert(s[i] == rest[i] && s[j] == rest[j]);
                }
            }
            assert(!rest.contains(last)) by {
                if rest.contains(last) {
                    let i = choose|i: int| 0 <= i < rest.len() && rest[i] == last;
                    assert(s[i] == s[s.len() - 1]);
                }
            }
            if last != id {
                assert forall|i: int, j: int| 0 <= i < j < wr.len() + 1 implies wr.push(last)[i]
                    != wr.push(last)[j] by {
                    if j == wr.len() {
                        assert(wr.contains(wr[i]));
                    }
                }
            }
        }
        assert forall|x: OrderId| #[trigger] without(s, id).contains(x) <==> s.contains(x) && x
            != id by {
            assert(wr.contains(x) <==> rest.contains(x) && x != id);
        }
    } else {
        assert(without(s, id) =~= s);
    }
}

/// One side of the book: its order index, the source of truth for which
/// orders are live, and two structures derived from it, the queue of ids at
/// each price and the heap of prices.
#[derive(Debug)]
pub struct BookSide<const HIGHEST_FIRST: bool> {
    pub orders: HashMap<OrderId, Order>,
    pub tree: PriceHeap<HIGHEST_FIRST>,
    pub price_map: HashMap<i64, OrderQueue>,
}

impl<const HIGHEST_FIRST: bool> BookSide<HIGHEST_FIRST> {
    /// The queue of ids at each price.
    pub open spec fn levels(&self) -> Map<i64, Seq<OrderId>> {
        Map::new(|p: i64| self.price_map@.contains_key(p), |p: i64| self.price_map@[p]@)
    }

    /// The ids queued at `p`; none where no level exists.
    pub open spec fn level(&self, p: i64) -> Seq<OrderId> {
        if self.levels().contains_key(p) {
            self.levels()[p]
        } else {
            Seq::empty()
        }
    }

    /// Whether `id` stands in some queue.
    pub open spec fn queued(&self, id: OrderId) -> bool {
        exists|p: i64| self.levels().contains_key(p) && #[trigger] self.levels()[p].contains(id)
    }

    /// Every order is indexed under its id, belongs to this side and has a
    /// level; every queued id is live at the queue's price and queued once;
    /// every heap entry has a level.
    pub open spec fn wf(&self) -> bool {
        let orders = self.orders@;
        let levels = self.levels();
        &&& self.tree.wf()
        &&& forall|id: OrderId| #[trigger]
            orders.contains_key(id) ==> orders[id].id == id && orders[id].side == side_of(
                HIGHEST_FIRST,
            ) && levels.contains_key(orders[id].price.0)
        &&& forall|p: i64, i: int|
            levels.contains_key(p) && 0 <= i < levels[p].len() ==> orders.contains_key(
                #[trigger] levels[p][i],
            ) && orders[levels[p][i]].price.0 == p
        &&& forall|p: i64| #[trigger] levels.contains_key(p) ==> levels[p].no_duplicates()
        &&& forall|i: int|
            0 <= i < self.tree@.len() ==> levels.contains_key(#[trigger] self.tree@[i].0)
    }

    pub fn new() -> (s: Self)
        ensures
            s.wf(),
            s.orders@ == Map::<OrderId, Order>::empty(),
            s.levels() == Map::<i64, Seq<OrderId>>::empty(),
            s.tree@ == Seq::<crate::types::Price>::empty(),
    {
        let s = BookSide { orders: HashMap::new(), tree: PriceHeap::new(), price_map: HashMap::new() };
        assert(s.levels() =~= Map::<i64, Seq<OrderId>>::empty());
        s
    }

    /// Rests `order` unconditionally: indexes it, pushes its price on the heap
    /// and appends its id to the queue at that price.
    pub fn rest(&mut self, order: Order)
        requires
            old(self).wf(),
            order.side == side_of(HIGHEST_FIRST),
            !old(self).queued(order.id),
        ensures
            final(self).wf(),
            final(self).orders@ == old(self).orders@.insert(order.id, order),
            final(self).tree@ == with_price(HIGHEST_FIRST, old(self).tree@, order.price),
            final(self).levels() == old(self).levels().insert(
                order.price.0,
                old(self).level(order.price.0).push(order.id),
            ),
    {
        let ghost old_levels = self.levels();
        let ghost old_tree = self.tree@;
        let p = order.price.0;
        self.orders.insert(order.id, order);
        self.tree.push(order.price);
        let mut q = match self.price_map.remove(&p) {
            Some(q) => q,
            None => OrderQueue::new(),
        };
        q.push(order.id);
        self.price_map.insert(p, q);
        proof {
            let new_q = old(self).level(p).push(order.id);
            assert(self.levels() =~= old_levels.insert(p, new_q));
            let levels = self.levels();
            let orders = self.orders@;
            assert forall|pp: i64, i: int|
                levels.contains_key(pp) && 0 <= i < levels[pp].len() implies orders.contains_key(
                #[trigger] levels[pp][i],
            ) && orders[levels[pp][i]].price.0 == pp by {
                if pp == p && i == new_q.len() - 1 {
                } else {
                    assert(old_levels.contains_key(pp));
                    assert(old_levels[pp][i] == levels[pp][i]);
                    if levels[pp][i] == order.id {
                        assert(old_levels[pp].contains(order.id));
                    }
                }
            }
            assert forall|pp: i64| #[trigger] levels.contains_key(pp) implies levels[pp].no_duplicates() by {
                if pp == p {
                    assert(!old(self).level(p).contains(order.id));
                    assert forall|i: int, j: int|
                        0 <= i < j < new_q.len() implies new_q[i] != new_q[j] by {
                        if j == new_q.len() - 1 {
                            assert(old(self).level(p)[i] == new_q[i]);
                        }
                    }
                }
            }
            let i0 = crate::heap::insert_pos(HIGHEST_FIRST, old_tree, order.price) as int;
            assert forall|i: int| 0 <= i < self.tree@.len() implies levels.contains_key(
                #[trigger] self.tree@[i].0,
            ) by {
                if i < i0 {
                    assert(self.tree@[i] == old_tree[i]);
                } else if i > i0 {
                    assert(self.tree@[i] == old_tree[i - 1]);
                }
            }
        }
    }

    /// An id that is not live is queued nowhere.
    pub proof fn lemma_dead_not_queued(&self, id: OrderId)
        requires
            self.wf(),
            !self.orders@.contains_key(id),
        ensures
            !self.queued(id),
    {
        if self.queued(id) {
            let p = choose|p: i64| self.levels().contains_key(p) && #[trigger] self.levels()[p].contains(id);
            let i = choose|i: int| 0 <= i < self.levels()[p].len() && self.levels()[p][i] == id;
            assert(self.orders@.contains_key(self.levels()[p][i]));
        }
    }

    /// Forgetting an order that is queued nowhere keeps the side consistent.
    pub proof fn lemma_forget_unqueued(&self, other: &Self, id: OrderId)
        requires
            self.wf(),
            !self.queued(id),
            other.tree@ == self.tree@,
            other.levels() == self.levels(),
            other.orders@ == self.orders@.remove(id),
        ensures
            other.wf(),
    {
        let levels = self.levels();
        assert forall|p: i64, i: int|
            levels.contains_key(p) && 0 <= i < levels[p].len() implies other.orders@.contains_key(
            #[trigger] levels[p][i],
        ) && other.orders@[levels[p][i]].price.0 == p by {
            if levels[p][i] == id {
                assert(levels[p].contains(id));
            }
        }
    }

    /// Pops the id at the head of the best level and returns its order.
    pub fn take_head(&mut self) -> (r: Order)
        requires
            old(self).wf(),
            old(self).tree@.len() > 0,
            old(self).level(old(self).tree@.last().0).len() > 0,
        ensures
            final(self).wf(),
            ({
                let p = old(self).tree@.last().0;
                let id = old(self).level(p)[0];
                &&& old(self).orders@.contains_key(id)
                &&& r == old(self).orders@[id]
                &&& final(self).levels() == old(self).levels().insert(p, old(self).level(p).drop_first())
                &&& !final(self).queued(id)
            }),
            final(self).orders@ == old(self).orders@,
            final(self).tree@ == old(self).tree@,
    {
        let ghost old_levels = self.levels();
        let n = self.tree.len();
        let p = self.tree.peek().unwrap().0;
        let ghost id0 = old_levels[p][0];
        let mut q = self.price_map.remove(&p).unwrap();
        let id = q.pop().unwrap();
        self.price_map.insert(p, q);
        let ghost new_q = old_levels[p].drop_first();
        proof {
            assert(self.levels() =~= old_levels.insert(p, new_q));
            assert(old_levels[p][0] == id);
            assert(self.orders@.contains_key(old_levels[p][0]));
            let levels = self.levels();
            assert forall|pp: i64, i: int|
                levels.contains_key(pp) && 0 <= i < levels[pp].len() implies self.orders@.contains_key(
                #[trigger] levels[pp][i],
            ) && self.orders@[levels[pp][i]].price.0 == pp by {
                if pp == p {
                    assert(levels[pp][i] == old_levels[p][i + 1]);
                }
            }
            assert forall|pp: i64| #[trigger] levels.contains_key(pp) implies levels[pp].no_duplicates() by {
                if pp == p {
                    assert forall|i: int, j: int| 0 <= i < j < new_q.len() implies new_q[i] != new_q[j] by {
                        assert(new_q[i] == old_levels[p][i + 1] && new_q[j] == old_levels[p][j + 1]);
                    }
                }
            }
            if self.queued(id) {
                let pp = choose|pp: i64| levels.contains_key(pp) && #[trigger] levels[pp].contains(id);
                let i = choose|i: int| 0 <= i < levels[pp].len() && levels[pp][i] == id;
                if pp == p {
                    assert(old_levels[p][i + 1] == old_levels[p][0]);
                } else {
                    assert(self.orders@[id].price.0 == pp);
                    assert(self.orders@[old_levels[p][0]].price.0 == p);
                }
            }
        }
        self.orders.get(&id).unwrap().clone()
    }

    /// Takes `id` out of the index and out of the queue at its price.
    pub fn remove(&mut self, id: OrderId) -> (r: Option<Order>)
        requires
            old(self).wf(),
        ensures
            final(self).wf(),
            final(self).tree@ == old(self).tree@,
            !old(self).orders@.contains_key(id) ==> r is None && final(self).orders@ == old(self).orders@
                && final(self).levels() == old(self).levels(),
            old(self).orders@.contains_key(id) ==> ({
                let o = old(self).orders@[id];
                &&& r == Some(o)
                &&& final(self).orders@ == old(self).orders@.remove(id)
                &&& final(self).levels() == old(self).levels().insert(
                    o.price.0,
                    without(old(self).level(o.price.0), id),
                )
            }),
    {
        let ghost old_levels = self.levels();
        match self.orders.remove(&id) {
            None => None,
            Some(o) => {
                let p = o.price.0;
                let mut q = self.price_map.remove(&p).unwrap();
                q.remove_order(id);
                self.price_map.insert(p, q);
                proof {
                    let new_q = without(old_levels[p], id);
                    lemma_without(old_levels[p], id);
                    assert(self.levels() =~= old_levels.insert(p, new_q));
                    let levels = self.levels();
                    assert forall|pp: i64, i: int|
                        levels.contains_key(pp) && 0 <= i < levels[pp].len() implies self.orders@.contains_key(
                        #[trigger] levels[pp][i],
                    ) && self.orders@[levels[pp][i]].price.0 == pp by {
                        let x = levels[pp][i];
                        if pp == p {
                            assert(new_q.contains(x));
                            let j = choose|j: int| 0 <= j < old_levels[p].len() && old_levels[p][j] == x;
                            assert(old(self).orders@.contains_key(old_levels[p][j]));
                        } else {
                            assert(old(self).orders@.contains_key(old_levels[pp][i]));
                        }
                    }
                }
                Some(o)
            },
        }
    }

    /// Discards stale tops: while the top price has a level and it is empty,
    /// pops it. Stops at a non-empty level, or at a top with no level.
    pub fn clean(&mut self)
        requires
            old(self).wf(),
        ensures
            final(self).wf(),
            final(self).tree@ == cleaned(old(self).tree@, old(self).levels()),
            cleaned(final(self).tree@, final(self).levels()) == final(self).tree@,
            final(self).orders@ == old(self).orders@,
            final(self).levels() == old(self).levels(),
    {
        loop
            invariant
                self.wf(),
                cleaned(self.tree@, self.levels()) == cleaned(old(self).tree@, old(self).levels()),
                self.orders@ == old(self).orders@,
                self.levels() == old(self).levels(),
            ensures
                self.wf(),
                self.tree@ == cleaned(old(self).tree@, old(self).levels()),
                cleaned(self.tree@, self.levels()) == self.tree@,
                self.orders@ == old(self).orders@,
                self.levels() == old(self).levels(),
            decreases self.tree@.len(),
        {
            let p = match self.tree.peek() {
                Some(top) => top.0,
                None => {
                    assert(cleaned(self.tree@, self.levels()) == self.tree@);
                    break;
                },
            };
            let stale = match self.price_map.get(&p) {
                Some(q) => q.is_empty(),
                None => false,
            };
            if stale {
                assert(cleaned(self.tree@, self.levels()) == cleaned(self.tree@.drop_last(), self.levels()));
                self.tree.pop();
            } else {
                assert(cleaned(self.tree@, self.levels()) == self.tree@);
                break;
            }
        }
    }

}

} // verus!
