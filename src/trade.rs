use vstd::prelude::*;
use crate::order::Order;
use crate::types::{OrderId, Price, Quantity};

verus! {

/// One execution: the two orders as they were when they met, the execution
/// price and the quantity traded.
#[derive(Debug, Clone, Copy, PartialEq, Eq, Structural)]
pub struct Trade {
    pub buy_order: Order,
    pub sell_order: Order,
    pub price: Price,
    pub quantity: Quantity,
}

/// The ledger key of a trade: (buy order id, sell order id).
pub open spec fn trade_key(t: Trade) -> (OrderId, OrderId) {
    (t.buy_order.id, t.sell_order.id)
}

/// Every trade recorded so far, keyed by (buy order id, sell order id). A trade
/// for a key that is already present replaces the earlier one.
pub struct TradeLedger {
    entries: Vec<Trade>,
    by_key: Ghost<Map<(OrderId, OrderId), Trade>>,
}

impl View for TradeLedger {
    type V = Map<(OrderId, OrderId), Trade>;

    closed spec fn view(&self) -> Map<(OrderId, OrderId), Trade> {
        self.by_key@
    }
}

impl TradeLedger {
    pub closed spec fn wf(&self) -> bool {
        let e = self.entries@;
        let m = self.by_key@;
        &&& m.dom().finite()
        &&& m.len() == e.len()
        &&& forall|i: int|
            0 <= i < e.len() ==> m.contains_key(trade_key(#[trigger] e[i])) && m[trade_key(e[i])]
                == e[i]
        &&& forall|k: (OrderId, OrderId)|
            #[trigger] m.contains_key(k) ==> exists|i: int| 0 <= i < e.len() && trade_key(e[i]) == k
        &&& forall|i: int, j: int|
            0 <= i < e.len() && 0 <= j < e.len() && i != j ==> trade_key(#[trigger] e[i])
                != trade_key(#[trigger] e[j])
    }

    pub fn new() -> (l: TradeLedger)
        ensures
            l.wf(),
            l@ == Map::<(OrderId, OrderId), Trade>::empty(),
    {
        TradeLedger { entries: Vec::new(), by_key: Ghost(Map::empty()) }
    }

    /// Index of the entry with this key, if any.
    fn find(&self, key: (OrderId, OrderId)) -> (r: Option<usize>)
        requires
            self.wf(),
        ensures
            match r {
                Some(i) => i < self.entries@.len() && trade_key(self.entries@[i as int]) == key,
                None => !self@.contains_key(key),
            },
    {
        let mut i: usize = 0;
        while i < self.entries.len()
            invariant
                i <= self.entries@.len(),
                forall|k: int| 0 <= k < i ==> trade_key(#[trigger] self.entries@[k]) != key,
            decreases self.entries@.len() - i,
        {
            if self.entries[i].buy_order.id == key.0 && self.entries[i].sell_order.id == key.1 {
                return Some(i);
            }
            i = i + 1;
        }
        None
    }

    /// Records `t` under its key, replacing any trade already there.
    pub fn record(&mut self, t: Trade)
        requires
            old(self).wf(),
        ensures
            final(self).wf(),
            final(self)@ == old(self)@.insert(trade_key(t), t),
    {
        let key = (t.buy_order.id, t.sell_order.id);
        match self.find(key) {
            Some(i) => {
                self.entries.set(i, t);
                self.by_key = Ghost(self.by_key@.insert(key, t));
                proof {
                    assert(self.by_key@.dom() =~= old(self).by_key@.dom());
                    assert forall|k: (OrderId, OrderId)| #[trigger]
                        self.by_key@.contains_key(k) implies exists|j: int|
                        0 <= j < self.entries@.len() && trade_key(self.entries@[j]) == k by {
                        let j = choose|j: int|
                            0 <= j < old(self).entries@.len() && trade_key(old(self).entries@[j])
                                == k;
                        assert(trade_key(self.entries@[j]) == k);
                    }
                }
            },
            None => {
                self.entries.push(t);
                self.by_key = Ghost(self.by_key@.insert(key, t));
                proof {
                    let n = old(self).entries@.len() as int;
                    assert(self.entries@[n] == t);
                    assert forall|k: (OrderId, OrderId)| #[trigger]
                        self.by_key@.contains_key(k) implies exists|j: int|
                        0 <= j < self.entries@.len() && trade_key(self.entries@[j]) == k by {
                        if k != key {
                            let j = choose|j: int|
                                0 <= j < old(self).entries@.len() && trade_key(
                                    old(self).entries@[j],
                                ) == k;
                            assert(trade_key(self.entries@[j]) == k);
                        }
                    }
                }
            },
        }
    }

    /// The trade recorded under `key`, if any.
    pub fn get(&self, key: &(OrderId, OrderId)) -> (r: Option<&Trade>)
        requires
            self.wf(),
        ensures
            r is None <==> !self@.contains_key(*key),
            r matches Some(t) ==> *t == self@[*key],
    {
        match self.find(*key) {
            Some(i) => Some(&self.entries[i]),
            None => None,
        }
    }

    /// The number of keys with a recorded trade.
    pub fn len(&self) -> (r: usize)
        requires
            self.wf(),
        ensures
            r == self@.len(),
    {
        self.entries.len()
    }
}

} // verus!
