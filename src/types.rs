use vstd::prelude::*;

verus! {

/// Number of units of an order.
pub type Quantity = usize;

/// Caller-assigned order identifier.
pub type OrderId = i32;

/// A limit price, counted in ticks (the smallest price increment).
#[derive(Debug, Clone, Copy, PartialEq, Eq, Structural, PartialOrd, Ord, Hash)]
pub struct Price(pub i64);

#[derive(Debug, Clone, Copy, PartialEq, Eq, Structural, PartialOrd, Ord)]
pub enum Side {
    Buy,
    Sell,
}

#[derive(Debug, Clone, Copy, PartialEq, Eq, Structural, PartialOrd, Ord)]
pub enum OrderType {
    GTC,
    FOK,
    IOC,
    Market,
}

} // verus!
