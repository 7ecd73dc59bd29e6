use vstd::prelude::*;
use crate::book_side::{cleaned, lemma_cleaned_prefix, lemma_cleaned_top, lemma_without, BookSide};
use crate::heap::{ranks_below, with_price};
use crate::heap::best_of;
use crate::order::{without, Order};
use crate::trade::{Trade, TradeLedger};
use crate::types::{OrderId, OrderType, Price, Quantity, Side};

verus! {

broadcast use vstd::std_specs::hash::group_hash_axioms, crate::heap::group_heap_lemmas;

/// The sum of the quantities of the orders in an index.
pub open spec fn total_quantity(m: Map<OrderId, Order>) -> nat
    decreases m.dom().len(),
{
    if m.dom().finite() && m.dom().len() > 0 {
        let k = m.dom().choose();
        m[k].quantity as nat + total_quantity(m.remove(k))
    } else {
        0
    }
}

/// The total splits into any one order and the rest.
pub proof fn lemma_total_remove(m: Map<OrderId, Order>, k: OrderId)
    requires
        m.dom().finite(),
        m.contains_key(k),
    ensures
        total_quantity(m) == m[k].quantity as nat + total_quantity(m.remove(k)),
    decreases m.dom().len(),
{
    let k0 = m.dom().choose();
    if k0 != k {
        lemma_total_remove(m.remove(k0), k);
        lemma_total_remove(m.remove(k), k0);
        assert(m.remove(k0).remove(k) =~= m.remove(k).remove(k0));
    }
}

/// Indexing an order adds its quantity, less that of any order it replaces.
pub proof fn lemma_total_insert(m: Map<OrderId, Order>, o: Order)
    requires
        m.dom().finite(),
    ensures
        m.contains_key(o.id) ==> total_quantity(m.insert(o.id, o)) + m[o.id].quantity as nat
            == total_quantity(m) + o.quantity as nat,
        !m.contains_key(o.id) ==> total_quantity(m.insert(o.id, o)) == total_quantity(m)
            + o.quantity as nat,
{
    let m2 = m.insert(o.id, o);
    lemma_total_remove(m2, o.id);
    if m.contains_key(o.id) {
        lemma_total_remove(m, o.id);
        assert(m2.remove(o.id) =~= m.remove(o.id));
    } else {
        assert(m2.remove(o.id) =~= m);
    }
}

pub open spec fn min_qty(a: Quantity, b: Quantity) -> Quantity {
    if a <= b {
        a
    } else {
        b
    }
}

/// The trade that matching `b` against `s` records: the smaller quantity, at
/// the buy order's price.
pub open spec fn fill(b: Order, s: Order) -> Trade {
    Trade { buy_order: b, sell_order: s, price: b.price, quantity: min_qty(b.quantity, s.quantity) }
}

/// What is left of the larger of `b` and `s` after they match: the same order
/// with the traded quantity taken off; nothing when the quantities are equal.
pub open spec fn remainder(b: Order, s: Order) -> Option<Order> {
    if b.quantity == s.quantity {
        None
    } else if b.quantity > s.quantity {
        Some(
            Order {
                id: b.id,
                kind: b.kind,
                quantity: (b.quantity - s.quantity) as Quantity,
                price: b.price,
                side: b.side,
            },
        )
    } else {
        Some(
            Order {
                id: s.id,
                kind: s.kind,
                quantity: (s.quantity - b.quantity) as Quantity,
                price: s.price,
                side: s.side,
            },
        )
    }
}

/// The index of `side` once the order `id` of that side has matched: it holds
/// the remainder, if the remainder belongs to this side, and no entry for `id`
/// otherwise.
pub open spec fn settle(m: Map<OrderId, Order>, id: OrderId, rem: Option<Order>, side: Side) -> Map<
    OrderId,
    Order,
> {
    match rem {
        Some(o) => if o.side == side {
            m.insert(id, o)
        } else {
            m.remove(id)
        },
        None => m.remove(id),
    }
}

/// After a fill, the total of one side's index plus the traded quantity is
/// the total before, plus the quantity of that side's order where it was not
/// indexed.
pub proof fn lemma_settle_total(m: Map<OrderId, Order>, b: Order, s: Order, side: Side)
    requires
        m.dom().finite(),
        b.side == Side::Buy,
        s.side == Side::Sell,
        ({
            let o = if side == Side::Buy {
                b
            } else {
                s
            };
            m.contains_key(o.id) ==> m[o.id] == o
        }),
    ensures
        ({
            let o = if side == Side::Buy {
                b
            } else {
                s
            };
            total_quantity(settle(m, o.id, remainder(b, s), side)) + min_qty(b.quantity, s.quantity)
                == total_quantity(m) + if m.contains_key(o.id) {
                0
            } else {
                o.quantity as nat
            }
        }),
{
    let o = if side == Side::Buy {
        b
    } else {
        s
    };
    if m.contains_key(o.id) {
        lemma_total_remove(m, o.id);
    } else {
        assert(m.remove(o.id) =~= m);
    }
    if let Some(r) = remainder(b, s) {
        if r.side == side {
            lemma_total_insert(m, r);
        }
    }
}

/// The queue at `p`; none where no level exists.
pub open spec fn queue_at(levels: Map<i64, Seq<OrderId>>, p: i64) -> Seq<OrderId> {
    if levels.contains_key(p) {
        levels[p]
    } else {
        Seq::empty()
    }
}

/// The levels of `side` once the remainder `rem`, where it belongs to that
/// side, is queued at the tail of its price.
pub open spec fn requeue(levels: Map<i64, Seq<OrderId>>, rem: Option<Order>, side: Side) -> Map<
    i64,
    Seq<OrderId>,
> {
    match rem {
        Some(o) => if o.side == side {
            levels.insert(o.price.0, queue_at(levels, o.price.0).push(o.id))
        } else {
            levels
        },
        None => levels,
    }
}

/// Whether the bid ranking (highest price first) applies to `side`.
pub open spec fn highest_first(side: Side) -> bool {
    side == Side::Buy
}

/// The heap entries of `side`, with the remainder's price added where the
/// remainder rests on that side.
pub open spec fn requeue_tree(t: Seq<Price>, rem: Option<Order>, side: Side) -> Seq<Price> {
    match rem {
        Some(o) => if o.side == side {
            with_price(highest_first(side), t, o.price)
        } else {
            t
        },
        None => t,
    }
}

/// Whether `o` reaches the top of the opposite heap entries `t`.
pub open spec fn reaches(o: Order, t: Seq<Price>) -> bool {
    &&& t.len() > 0
    &&& if o.side == Side::Buy {
        t.last().0 <= o.price.0
    } else {
        o.price.0 <= t.last().0
    }
}

/// The other side.
pub open spec fn opposite(side: Side) -> Side {
    match side {
        Side::Buy => Side::Sell,
        Side::Sell => Side::Buy,
    }
}

/// A limit order book for one instrument.
pub struct OrderBook {
    pub bids: BookSide<true>,
    pub asks: BookSide<false>,
    /// Quantity submitted on the buy side less quantity executed or canceled.
    pub buy_volume: Quantity,
    /// Quantity submitted on the sell side less quantity executed or canceled.
    pub sell_volume: Quantity,
    /// Executed trades keyed by (buy order id, sell order id).
    pub trades: TradeLedger,
}

impl OrderBook {
    pub open spec fn orders_of(&self, side: Side) -> Map<OrderId, Order> {
        match side {
            Side::Buy => self.bids.orders@,
            Side::Sell => self.asks.orders@,
        }
    }

    pub open spec fn levels_of(&self, side: Side) -> Map<i64, Seq<OrderId>> {
        match side {
            Side::Buy => self.bids.levels(),
            Side::Sell => self.asks.levels(),
        }
    }

    pub open spec fn level_of(&self, side: Side, p: i64) -> Seq<OrderId> {
        match side {
            Side::Buy => self.bids.level(p),
            Side::Sell => self.asks.level(p),
        }
    }

    /// The price heap of a side, from worst to best.
    pub open spec fn tree_of(&self, side: Side) -> Seq<Price> {
        match side {
            Side::Buy => self.bids.tree@,
            Side::Sell => self.asks.tree@,
        }
    }

    pub open spec fn volume_of(&self, side: Side) -> nat {
        match side {
            Side::Buy => self.buy_volume as nat,
            Side::Sell => self.sell_volume as nat,
        }
    }

    /// Both books hold the same state on `side`.
    pub open spec fn same_side(&self, other: &Self, side: Side) -> bool {
        &&& other.orders_of(side) == self.orders_of(side)
        &&& other.levels_of(side) == self.levels_of(side)
        &&& other.tree_of(side) == self.tree_of(side)
        &&& other.volume_of(side) == self.volume_of(side)
    }

    /// Both books hold the same state.
    pub open spec fn same_book(&self, other: &Self) -> bool {
        &&& self.same_side(other, Side::Buy)
        &&& self.same_side(other, Side::Sell)
        &&& other.trades@ == self.trades@
    }

    /// Each side is consistent, and each volume counter equals the total
    /// quantity of the orders live on its side.
    pub open spec fn wf(&self) -> bool {
        &&& self.bids.wf()
        &&& self.asks.wf()
        &&& self.trades.wf()
        &&& self.buy_volume as nat == total_quantity(self.bids.orders@)
        &&& self.sell_volume as nat == total_quantity(self.asks.orders@)
    }

    /// What resting `o` does: it is indexed, its price pushed and its id
    /// queued on its side, and its quantity counted in that side's volume.
    pub open spec fn rested(&self, after: &Self, o: Order) -> bool {
        let side = o.side;
        &&& after.orders_of(side) == self.orders_of(side).insert(o.id, o)
        &&& after.levels_of(side) == self.levels_of(side).insert(
            o.price.0,
            self.level_of(side, o.price.0).push(o.id),
        )
        &&& after.tree_of(side) == with_price(highest_first(side), self.tree_of(side), o.price)
        &&& after.volume_of(side) == self.volume_of(side) + o.quantity
        &&& self.same_side(after, opposite(side))
        &&& after.trades@ == self.trades@
    }

    /// What canceling the live order `id` of `side` does.
    pub open spec fn canceled(&self, after: &Self, side: Side, id: OrderId) -> bool {
        let o = self.orders_of(side)[id];
        &&& after.orders_of(side) == self.orders_of(side).remove(id)
        &&& after.levels_of(side) == self.levels_of(side).insert(
            o.price.0,
            without(self.level_of(side, o.price.0), id),
        )
        &&& after.tree_of(side) == self.tree_of(side)
        &&& after.volume_of(side) == self.volume_of(side) - o.quantity
        &&& self.same_side(after, opposite(side))
        &&& after.trades@ == self.trades@
    }

    /// What `cancel_order(id)` does: the buy side is searched first, then the
    /// sell side; an id live on neither leaves the book as it was.
    pub open spec fn cancel_post(&self, after: &Self, id: OrderId, r: bool) -> bool {
        let in_buy = self.orders_of(Side::Buy).contains_key(id);
        let in_sell = self.orders_of(Side::Sell).contains_key(id);
        &&& r == (in_buy || in_sell)
        &&& in_buy ==> self.canceled(after, Side::Buy, id)
        &&& !in_buy && in_sell ==> self.canceled(after, Side::Sell, id)
        &&& !r ==> self.same_book(after)
    }

    /// The heap of the side opposite `o`, once its stale tops are discarded.
    pub open spec fn opposing_best(&self, o: Order) -> Seq<Price> {
        cleaned(self.tree_of(opposite(o.side)), self.levels_of(opposite(o.side)))
    }

    /// Whether `o` reaches the best live price of the opposite side.
    pub open spec fn crosses(&self, o: Order) -> bool {
        reaches(o, self.opposing_best(o))
    }

    /// Whether `o` reaches the top of the opposite heap as it stands, stale or
    /// not.
    pub open spec fn reaches_top(&self, o: Order) -> bool {
        reaches(o, self.tree_of(opposite(o.side)))
    }

    /// The resting order that `o` meets: the head of the best opposite level.
    pub open spec fn counterpart(&self, o: Order) -> Order {
        let opp = opposite(o.side);
        self.orders_of(opp)[self.level_of(opp, self.opposing_best(o).last().0)[0]]
    }

    /// What placing `o` does when it crosses: one trade against its
    /// counterpart, with both indices settled and both volumes reduced by
    /// the traded quantity, after `o`'s own quantity was counted.
    pub open spec fn matched(&self, after: &Self, o: Order) -> bool {
        let c = self.counterpart(o);
        let b = if o.side == Side::Buy {
            o
        } else {
            c
        };
        let s = if o.side == Side::Buy {
            c
        } else {
            o
        };
        let q = min_qty(b.quantity, s.quantity);
        let opp = opposite(o.side);
        let top = self.opposing_best(o).last().0;
        let taken = self.levels_of(opp).insert(top, self.level_of(opp, top).drop_first());
        &&& after.trades@ == self.trades@.insert((b.id, s.id), fill(b, s))
        &&& after.levels_of(opp) == requeue(taken, remainder(b, s), opp)
        &&& after.levels_of(o.side) == requeue(self.levels_of(o.side), remainder(b, s), o.side)
        &&& after.tree_of(o.side) == cleaned(
            requeue_tree(self.tree_of(o.side), remainder(b, s), o.side),
            after.levels_of(o.side),
        )
        &&& after.tree_of(opp) == cleaned(
            requeue_tree(self.opposing_best(o), remainder(b, s), opp),
            after.levels_of(opp),
        )
        &&& after.volume_of(o.side) == self.volume_of(o.side) + o.quantity - q
        &&& after.volume_of(opposite(o.side)) == self.volume_of(opposite(o.side)) - q
        &&& after.orders_of(Side::Buy) == settle(
            self.orders_of(Side::Buy),
            b.id,
            remainder(b, s),
            Side::Buy,
        )
        &&& after.orders_of(Side::Sell) == settle(
            self.orders_of(Side::Sell),
            s.id,
            remainder(b, s),
            Side::Sell,
        )
    }

    /// What placing `o` does when it does not cross: `o` rests. The opposite
    /// heap is untouched unless `o` reached its top, which then proved stale:
    /// in that case only its stale tops are gone.
    pub open spec fn rested_uncrossed(&self, after: &Self, o: Order) -> bool {
        let side = o.side;
        let opp = opposite(side);
        &&& after.orders_of(side) == self.orders_of(side).insert(o.id, o)
        &&& after.levels_of(side) == self.levels_of(side).insert(
            o.price.0,
            self.level_of(side, o.price.0).push(o.id),
        )
        &&& after.tree_of(side) == with_price(highest_first(side), self.tree_of(side), o.price)
        &&& after.volume_of(side) == self.volume_of(side) + o.quantity
        &&& after.orders_of(opp) == self.orders_of(opp)
        &&& after.levels_of(opp) == self.levels_of(opp)
        &&& after.tree_of(opp) == if self.reaches_top(o) {
            self.opposing_best(o)
        } else {
            self.tree_of(opp)
        }
        &&& after.volume_of(opp) == self.volume_of(opp)
        &&& after.trades@ == self.trades@
    }

    pub fn new() -> (b: OrderBook)
        ensures
            b.wf(),
            b.orders_of(Side::Buy) == Map::<OrderId, Order>::empty(),
            b.orders_of(Side::Sell) == Map::<OrderId, Order>::empty(),
            b.tree_of(Side::Buy) == Seq::<Price>::empty(),
            b.tree_of(Side::Sell) == Seq::<Price>::empty(),
            b.levels_of(Side::Buy) == Map::<i64, Seq<OrderId>>::empty(),
            b.levels_of(Side::Sell) == Map::<i64, Seq<OrderId>>::empty(),
            b.buy_volume == 0,
            b.sell_volume == 0,
            b.trades@ == Map::<(OrderId, OrderId), Trade>::empty(),
    {
        let b = OrderBook {
            bids: BookSide::new(),
            asks: BookSide::new(),
            buy_volume: 0,
            sell_volume: 0,
            trades: TradeLedger::new(),
        };
        assert(b.bids.orders@.dom() =~= Set::<OrderId>::empty());
        assert(b.asks.orders@.dom() =~= Set::<OrderId>::empty());
        b
    }

    /// Rests `order` on its side without matching it, and counts its quantity
    /// in that side's volume.
    pub fn add_order(&mut self, order: Order)
        requires
            old(self).wf(),
            !old(self).orders_of(order.side).contains_key(order.id),
            old(self).volume_of(order.side) + order.quantity <= usize::MAX,
        ensures
            final(self).wf(),
            old(self).rested(final(self), order),
    {
        match order.side {
            Side::Buy => {
                proof {
                    self.bids.lemma_dead_not_queued(order.id);
                    lemma_total_insert(self.bids.orders@, order);
                }
                self.bids.rest(order);
                self.buy_volume = self.buy_volume + order.quantity;
            },
            Side::Sell => {
                proof {
                    self.asks.lemma_dead_not_queued(order.id);
                    lemma_total_insert(self.asks.orders@, order);
                }
                self.asks.rest(order);
                self.sell_volume = self.sell_volume + order.quantity;
            },
        }
    }

    /// Places a good-till-canceled order. The order's quantity is counted in
    /// its side's volume. If it does not reach the top of the opposite heap,
    /// it rests and the opposite side is left as it was. If it does, stale
    /// tops of the opposite heap are discarded first, so that a canceled level
    /// is never taken for live depth; if it still reaches the best price, it
    /// matches once against the head of that level, the remainder rests, and
    /// both heaps lose their stale tops; otherwise it rests. Other kinds of
    /// order are left alone. Returns whether a trade happened.
    pub fn place_order(&mut self, order: Order) -> (r: bool)
        requires
            old(self).wf(),
            order.kind == OrderType::GTC ==> !old(self).orders_of(order.side).contains_key(order.id),
            order.kind == OrderType::GTC ==> old(self).volume_of(order.side) + order.quantity
                <= usize::MAX,
        ensures
            final(self).wf(),
            order.kind != OrderType::GTC ==> !r && old(self).same_book(final(self)),
            order.kind == OrderType::GTC ==> r == old(self).crosses(order),
            order.kind == OrderType::GTC && r ==> old(self).matched(final(self), order),
            order.kind == OrderType::GTC && !r ==> old(self).rested_uncrossed(
                final(self),
                order,
            ),
    {
        if order.kind != OrderType::GTC {
            return false;
        }
        match order.side {
            Side::Buy => {
                proof {
                    self.bids.lemma_dead_not_queued(order.id);
                    lemma_total_insert(self.bids.orders@, order);
                }
                self.buy_volume = self.buy_volume + order.quantity;
                let reach = match self.asks.tree.peek() {
                    None => false,
                    Some(p) => p.0 <= order.price.0,
                };
                if !reach {
                    proof {
                        lemma_crossing_rule(old(self), order);
                    }
                    self.bids.rest(order);
                    return false;
                }
                self.asks.clean();
                let crosses = match self.asks.tree.peek() {
                    None => false,
                    Some(p) => p.0 <= order.price.0,
                };
                if !crosses {
                    self.bids.rest(order);
                    return false;
                }
                proof {
                    lemma_cleaned_top(old(self).asks.tree@, old(self).asks.levels());
                    assert(self.asks.levels().contains_key(self.asks.tree@.last().0));
                }
                let ghost before = *self;
                let resting = self.asks.take_head();
                let ghost taken = *self;
                proof {
                    lemma_total_remove(self.asks.orders@, resting.id);
                }
                let rem = self.match_order(order, resting);
                proof {
                    assert(before.bids.orders@.remove(order.id) =~= before.bids.orders@);
                    before.bids.lemma_forget_unqueued(&self.bids, order.id);
                    if resting.quantity <= order.quantity {
                        taken.asks.lemma_forget_unqueued(&self.asks, resting.id);
                    }
                    lemma_settle_total(old(self).bids.orders@, order, resting, Side::Buy);
                    lemma_settle_total(old(self).asks.orders@, order, resting, Side::Sell);
                }
                match rem {
                    Some(o) => {
                        if o.side == Side::Buy {
                            self.bids.rest(o);
                        } else {
                            self.asks.rest(o);
                        }
                    },
                    None => {},
                }
            },
            Side::Sell => {
                proof {
                    self.asks.lemma_dead_not_queued(order.id);
                    lemma_total_insert(self.asks.orders@, order);
                }
                self.sell_volume = self.sell_volume + order.quantity;
                let reach = match self.bids.tree.peek() {
                    None => false,
                    Some(p) => order.price.0 <= p.0,
                };
                if !reach {
                    proof {
                        lemma_crossing_rule(old(self), order);
                    }
                    self.asks.rest(order);
                    return false;
                }
                self.bids.clean();
                let crosses = match self.bids.tree.peek() {
                    None => false,
                    Some(p) => order.price.0 <= p.0,
                };
                if !crosses {
                    self.asks.rest(order);
                    return false;
                }
                proof {
                    lemma_cleaned_top(old(self).bids.tree@, old(self).bids.levels());
                    assert(self.bids.levels().contains_key(self.bids.tree@.last().0));
                }
                let ghost before = *self;
                let resting = self.bids.take_head();
                let ghost taken = *self;
                proof {
                    lemma_total_remove(self.bids.orders@, resting.id);
                }
                let rem = self.match_order(resting, order);
                proof {
                    assert(before.asks.orders@.remove(order.id) =~= before.asks.orders@);
                    before.asks.lemma_forget_unqueued(&self.asks, order.id);
                    if resting.quantity <= order.quantity {
                        taken.bids.lemma_forget_unqueued(&self.bids, resting.id);
                    }
                    lemma_settle_total(old(self).bids.orders@, resting, order, Side::Buy);
                    lemma_settle_total(old(self).asks.orders@, resting, order, Side::Sell);
                }
                match rem {
                    Some(o) => {
                        if o.side == Side::Buy {
                            self.bids.rest(o);
                        } else {
                            self.asks.rest(o);
                        }
                    },
                    None => {},
                }
            },
        }
        self.bids.clean();
        self.asks.clean();
        true
    }

    /// Matches `buy_order` against `sell_order`: records the trade, takes the
    /// traded quantity off both volumes, and unindexes each order that is
    /// filled completely. Returns what is left of the larger order. Neither
    /// queues nor heaps are touched.
    pub fn match_order(&mut self, buy_order: Order, sell_order: Order) -> (r: Option<Order>)
        requires
            old(self).trades.wf(),
            old(self).buy_volume >= min_qty(buy_order.quantity, sell_order.quantity),
            old(self).sell_volume >= min_qty(buy_order.quantity, sell_order.quantity),
        ensures
            r == remainder(buy_order, sell_order),
            final(self).trades.wf(),
            final(self).trades@ == old(self).trades@.insert(
                (buy_order.id, sell_order.id),
                fill(buy_order, sell_order),
            ),
            final(self).buy_volume == old(self).buy_volume - min_qty(
                buy_order.quantity,
                sell_order.quantity,
            ),
            final(self).sell_volume == old(self).sell_volume - min_qty(
                buy_order.quantity,
                sell_order.quantity,
            ),
            final(self).bids.orders@ == if buy_order.quantity <= sell_order.quantity {
                old(self).bids.orders@.remove(buy_order.id)
            } else {
                old(self).bids.orders@
            },
            final(self).asks.orders@ == if sell_order.quantity <= buy_order.quantity {
                old(self).asks.orders@.remove(sell_order.id)
            } else {
                old(self).asks.orders@
            },
            final(self).bids.levels() == old(self).bids.levels(),
            final(self).asks.levels() == old(self).asks.levels(),
            final(self).bids.tree@ == old(self).bids.tree@,
            final(self).asks.tree@ == old(self).asks.tree@,
    {
        let quantity = if buy_order.quantity <= sell_order.quantity {
            buy_order.quantity
        } else {
            sell_order.quantity
        };
        let trade = Trade {
            buy_order: buy_order,
            sell_order: sell_order,
            price: buy_order.price,
            quantity: quantity,
        };
        self.trades.record(trade);
        self.buy_volume = self.buy_volume - quantity;
        self.sell_volume = self.sell_volume - quantity;
        if buy_order.quantity == sell_order.quantity {
            self.bids.orders.remove(&buy_order.id);
            self.asks.orders.remove(&sell_order.id);
            None
        } else if buy_order.quantity > sell_order.quantity {
            self.asks.orders.remove(&sell_order.id);
            Some(
                Order {
                    id: buy_order.id,
                    kind: buy_order.kind,
                    quantity: buy_order.quantity - quantity,
                    price: buy_order.price,
                    side: buy_order.side,
                },
            )
        } else {
            self.bids.orders.remove(&buy_order.id);
            Some(
                Order {
                    id: sell_order.id,
                    kind: sell_order.kind,
                    quantity: sell_order.quantity - quantity,
                    price: sell_order.price,
                    side: sell_order.side,
                },
            )
        }
    }

    /// Cancels the live order `id`, looking on the buy side first. Returns
    /// whether one was found.
    pub fn cancel_order(&mut self, id: OrderId) -> (r: bool)
        requires
            old(self).wf(),
        ensures
            final(self).wf(),
            old(self).cancel_post(final(self), id, r),
    {
        proof {
            if self.bids.orders@.contains_key(id) {
                lemma_total_remove(self.bids.orders@, id);
            }
            if self.asks.orders@.contains_key(id) {
                lemma_total_remove(self.asks.orders@, id);
            }
        }
        match self.bids.remove(id) {
            Some(o) => {
                self.buy_volume = self.buy_volume - o.quantity;
                true
            },
            None => match self.asks.remove(id) {
                Some(o) => {
                    self.sell_volume = self.sell_volume - o.quantity;
                    true
                },
                None => false,
            },
        }
    }

    /// The top of the bid heap, which may be a price with no live depth
    /// between a cancellation and the next match.
    pub fn get_bid(&self) -> (r: Option<&Price>)
        ensures
            r is None <==> self.tree_of(Side::Buy).len() == 0,
            r matches Some(p) ==> Some(*p) == best_of(self.tree_of(Side::Buy)),
    {
        self.bids.tree.peek()
    }

    /// The top of the ask heap, which may be a price with no live depth
    /// between a cancellation and the next match.
    pub fn get_ask(&self) -> (r: Option<&Price>)
        ensures
            r is None <==> self.tree_of(Side::Sell).len() == 0,
            r matches Some(p) ==> Some(*p) == best_of(self.tree_of(Side::Sell)),
    {
        self.asks.tree.peek()
    }

    /// Discards stale tops of the bid heap.
    pub fn clean_empty_bid(&mut self)
        requires
            old(self).wf(),
        ensures
            final(self).wf(),
            final(self).tree_of(Side::Buy) == cleaned(
                old(self).tree_of(Side::Buy),
                old(self).levels_of(Side::Buy),
            ),
            final(self).orders_of(Side::Buy) == old(self).orders_of(Side::Buy),
            final(self).levels_of(Side::Buy) == old(self).levels_of(Side::Buy),
            final(self).volume_of(Side::Buy) == old(self).volume_of(Side::Buy),
            old(self).same_side(final(self), Side::Sell),
            final(self).trades@ == old(self).trades@,
    {
        self.bids.clean();
    }

    /// Discards stale tops of the ask heap.
    pub fn clean_empty_ask(&mut self)
        requires
            old(self).wf(),
        ensures
            final(self).wf(),
            final(self).tree_of(Side::Sell) == cleaned(
                old(self).tree_of(Side::Sell),
                old(self).levels_of(Side::Sell),
            ),
            final(self).orders_of(Side::Sell) == old(self).orders_of(Side::Sell),
            final(self).levels_of(Side::Sell) == old(self).levels_of(Side::Sell),
            final(self).volume_of(Side::Sell) == old(self).volume_of(Side::Sell),
            old(self).same_side(final(self), Side::Buy),
            final(self).trades@ == old(self).trades@,
    {
        self.asks.clean();
    }
}

/// In a consistent book, each volume counter equals the total quantity of
/// the orders live on its side; every operation keeps the book consistent, so
/// this holds after any sequence of insertions.
pub proof fn lemma_volume_is_resting_total(book: &OrderBook)
    requires
        book.wf(),
    ensures
        book.volume_of(Side::Buy) == total_quantity(book.orders_of(Side::Buy)),
        book.volume_of(Side::Sell) == total_quantity(book.orders_of(Side::Sell)),
{
}

/// A good-till-canceled order crosses when it reaches the top of the opposite
/// heap and that top has live depth; it never crosses when the opposite heap
/// is empty or its top is out of reach.
pub proof fn lemma_crossing_rule(book: &OrderBook, o: Order)
    requires
        book.wf(),
    ensures
        ({
            let t = book.tree_of(opposite(o.side));
            let reaches = if o.side == Side::Buy {
                t.last().0 <= o.price.0
            } else {
                o.price.0 <= t.last().0
            };
            &&& t.len() > 0 && book.level_of(opposite(o.side), t.last().0).len() > 0 && reaches
                ==> book.crosses(o)
            &&& (t.len() == 0 || !reaches) ==> !book.crosses(o)
        }),
{
    let opp = opposite(o.side);
    let t = book.tree_of(opp);
    let levels = book.levels_of(opp);
    lemma_cleaned_prefix(t, levels);
    let c = cleaned(t, levels);
    if t.len() > 0 && book.level_of(opp, t.last().0).len() > 0 {
        assert(c =~= t);
    }
    if c.len() > 0 && t.len() > 0 {
        assert(c[c.len() - 1] == t[c.len() - 1]);
        if o.side == Side::Buy {
            assert(ranks_below(false, t[c.len() - 1], t[t.len() - 1]) || c.len() == t.len());
        } else {
            assert(ranks_below(true, t[c.len() - 1], t[t.len() - 1]) || c.len() == t.len());
        }
    }
}

/// Inserting an order and then canceling its id restores the side's volume
/// and index, and leaves the id in no queue at the order's price.
pub proof fn lemma_insert_then_cancel(b0: &OrderBook, b1: &OrderBook, b2: &OrderBook, o: Order)
    requires
        b0.wf(),
        !b0.orders_of(Side::Buy).contains_key(o.id),
        !b0.orders_of(Side::Sell).contains_key(o.id),
        b0.rested(b1, o),
        b1.cancel_post(b2, o.id, true),
    ensures
        b2.volume_of(o.side) == b0.volume_of(o.side),
        b2.orders_of(o.side) == b0.orders_of(o.side),
        !b2.level_of(o.side, o.price.0).contains(o.id),
{
    assert(b1.orders_of(o.side).contains_key(o.id));
    assert(b2.orders_of(o.side) =~= b0.orders_of(o.side));
    lemma_without(b0.level_of(o.side, o.price.0).push(o.id), o.id);
}

} // verus!
