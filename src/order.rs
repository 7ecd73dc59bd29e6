use vstd::prelude::*;
use std::cmp::Ordering;
use std::collections::VecDeque;
use crate::types::{OrderId, OrderType, Price, Quantity, Side};

verus! {

broadcast use vstd::std_specs::vecdeque::group_vec_dequeue_axioms;

/// One order: an immutable snapshot of what a client submitted.
#[derive(Debug, Clone, Copy, PartialEq, Eq, Structural)]
pub struct Order {
    pub id: OrderId,
    pub kind: OrderType,
    pub quantity: Quantity,
    pub price: Price,
    pub side: Side,
}

/// The key under which an order ranks on its own side: higher is better.
pub open spec fn heap_val(o: Order) -> int {
    if o.side == Side::Buy {
        o.price.0 as int
    } else {
        -(o.price.0 as int)
    }
}

/// The sequence with every occurrence of `id` taken out.
pub open spec fn without(s: Seq<OrderId>, id: OrderId) -> Seq<OrderId> {
    s.filter(|x: OrderId| x != id)
}

/// Three-way comparison of two integers.
pub open spec fn compare(a: int, b: int) -> Ordering {
    if a < b {
        Ordering::Less
    } else if a > b {
        Ordering::Greater
    } else {
        Ordering::Equal
    }
}

/// Orders at one price rank by id; otherwise by their heap key.
pub open spec fn order_cmp(a: Order, b: Order) -> Ordering {
    if a.price == b.price {
        compare(a.id as int, b.id as int)
    } else {
        compare(heap_val(a), heap_val(b))
    }
}

fn compare_wide(a: i128, b: i128) -> (r: Ordering)
    ensures
        r == compare(a as int, b as int),
{
    if a < b {
        Ordering::Less
    } else if a > b {
        Ordering::Greater
    } else {
        Ordering::Equal
    }
}

fn heap_key(o: &Order) -> (r: i128)
    ensures
        r == heap_val(*o),
{
    if o.side == Side::Buy {
        o.price.0 as i128
    } else {
        -(o.price.0 as i128)
    }
}

impl PartialOrd for Order {
    fn partial_cmp(&self, other: &Self) -> Option<Ordering> {
        if self.price.0 == other.price.0 {
            Some(compare_wide(self.id as i128, other.id as i128))
        } else {
            Some(compare_wide(heap_key(self), heap_key(other)))
        }
    }
}

impl vstd::std_specs::cmp::PartialOrdSpecImpl for Order {
    open spec fn obeys_partial_cmp_spec() -> bool {
        true
    }

    open spec fn partial_cmp_spec(&self, other: &Order) -> Option<Ordering> {
        Some(order_cmp(*self, *other))
    }
}

impl Order {
    pub fn new(id: OrderId, kind: OrderType, quantity: Quantity, price: Price, side: Side) -> (r:
        Order)
        ensures
            r == (Order { id, kind, quantity, price, side }),
    {
        Order { id: id, kind: kind, quantity: quantity, price: price, side: side }
    }

    /// The price as a key where a larger value is a better price for this side:
    /// the price itself for a buy, its negation for a sell.
    pub fn get_heap_val(&self) -> (r: Price)
        requires
            self.price.0 > i64::MIN,
        ensures
            r.0 == heap_val(*self),
    {
        if self.side == Side::Buy {
            self.price
        } else {
            Price(-self.price.0)
        }
    }
}

/// The ids of the orders resting at one price, in order of arrival.
#[derive(Debug)]
pub struct OrderQueue(pub VecDeque<OrderId>);

impl View for OrderQueue {
    type V = Seq<OrderId>;

    open spec fn view(&self) -> Seq<OrderId> {
        self.0@
    }
}

impl OrderQueue {
    pub fn new() -> (q: OrderQueue)
        ensures
            q@ == Seq::<OrderId>::empty(),
    {
        OrderQueue(VecDeque::new())
    }

    /// Appends an id at the tail.
    pub fn push(&mut self, id: OrderId)
        ensures
            final(self)@ == old(self)@.push(id),
    {
        self.0.push_back(id);
    }

    /// Removes and returns the id at the head.
    pub fn pop(&mut self) -> (r: Option<OrderId>)
        ensures
            old(self)@.len() == 0 ==> r is None && final(self)@ == old(self)@,
            old(self)@.len() > 0 ==> r == Some(old(self)@[0]) && final(self)@ == old(
                self,
            )@.drop_first(),
    {
        self.0.pop_front()
    }

    /// The id at the head, left in place.
    pub fn peek(&self) -> (r: Option<&OrderId>)
        ensures
            self@.len() == 0 ==> r is None,
            self@.len() > 0 ==> r == Some(&self@[0]),
    {
        if self.0.len() == 0 {
            None
        } else {
            Some(&self.0[0])
        }
    }

    pub fn len(&self) -> (r: usize)
        ensures
            r == self@.len(),
    {
        self.0.len()
    }

    pub fn is_empty(&self) -> (r: bool)
        ensures
            r == (self@.len() == 0),
    {
        self.0.len() == 0
    }

    /// Deletes every occurrence of `order_id`, keeping the others in order.
    pub fn remove_order(&mut self, order_id: OrderId)
        ensures
            final(self)@ == without(old(self)@, order_id),
    {
        let mut kept: VecDeque<OrderId> = VecDeque::new();
        let n = self.0.len();
        let mut i: usize = 0;
        while i < n
            invariant
                n == self@.len(),
                i <= n,
                kept@ == without(self@.subrange(0, i as int), order_id),
            decreases n - i,
        {
            let id = self.0[i];
            let ghost prev = kept@;
            if id != order_id {
                kept.push_back(id);
            }
            proof {
                let s = self@.subrange(0, i as int + 1);
                assert(s.drop_last() == self@.subrange(0, i as int));
                assert(s.last() == id);
                reveal(Seq::filter);
                assert(without(s, order_id) == if id != order_id { prev.push(id) } else { prev });
            }
            i = i + 1;
        }
        proof {
            assert(self@.subrange(0, n as int) == self@);
        }
        self.0 = kept;
    }
}

} // verus!
