//! The data types shared by brokers, clients and the environment.

use vstd::prelude::*;

use crate::rational::{rat_div, rat_mul, Rat, Rational};

verus! {

/// Lifecycle of an order.  The simulated broker only ever uses `New`
/// and `Filled`; the other states exist for live backends.
#[derive(Clone, Copy, Debug, PartialEq, Eq, Structural)]
pub enum OrderStatus {
    New,
    PartiallyFilled,
    Filled,
    Expired,
    Unimplemented,
}

#[derive(Clone, Copy, Debug, PartialEq, Eq, Structural)]
pub enum OrderType {
    Market,
    Limit,
}

#[derive(Clone, Copy, Debug, PartialEq, Eq, Structural)]
pub enum OrderSide {
    Buy,
    Sell,
}

/// A requested order size: either so many units of the traded asset,
/// or so much value in the settlement asset.
#[derive(Clone, Copy, Debug, PartialEq)]
pub enum Amount {
    Quantity { quantity: Rational },
    Notional { notional: Rational },
}

impl Amount {
    pub open spec fn wf(&self) -> bool {
        match *self {
            Amount::Quantity { quantity } => quantity.wf(),
            Amount::Notional { notional } => notional.wf(),
        }
    }

    /// The quantity this amount stands for at the given price.
    pub open spec fn spec_quantity(&self, price: Rat) -> Rat {
        match *self {
            Amount::Quantity { quantity } => quantity@,
            Amount::Notional { notional } => rat_div(notional@, price),
        }
    }

    /// The notional value this amount stands for at the given price.
    pub open spec fn spec_notional(&self, price: Rat) -> Rat {
        match *self {
            Amount::Quantity { quantity } => rat_mul(quantity@, price),
            Amount::Notional { notional } => notional@,
        }
    }
}

/// An order as callers see it.  `filled_quantity` and
/// `average_fill_price` are only meaningful once `status` is `Filled`.
#[derive(Clone, Debug, PartialEq)]
pub struct Order {
    pub order_id: String,
    pub asset_symbol: String,
    pub amount: Amount,
    pub limit_price: Option<Rational>,
    pub filled_quantity: Rational,
    pub average_fill_price: Option<Rational>,
    pub status: OrderStatus,
    pub type_: OrderType,
    pub side: OrderSide,
}

impl Order {
    /// A copy that is equal to the original, field for field.
    pub fn duplicate(&self) -> (r: Order)
        ensures
            r == *self,
    {
        Order {
            order_id: self.order_id.clone(),
            asset_symbol: self.asset_symbol.clone(),
            amount: self.amount,
            limit_price: self.limit_price,
            filled_quantity: self.filled_quantity,
            average_fill_price: self.average_fill_price,
            status: self.status,
            type_: self.type_,
            side: self.side,
        }
    }
}

/// An OHLC price summary over one time window.  Times are milliseconds
/// on the simulated clock's axis.
#[derive(Clone, Copy, Debug, PartialEq)]
pub struct Bar {
    pub low: Rational,
    pub high: Rational,
    pub open: Rational,
    pub close: Rational,
    pub date_time: i64,
}

/// A non-currency holding, valued at the last known price when one
/// exists.
#[derive(Clone, Debug, PartialEq)]
pub struct OpenPosition {
    pub asset_symbol: String,
    pub average_entry_price: Option<Rational>,
    pub quantity: Rational,
    pub market_value: Option<Rational>,
}

/// The aggregate state of an account in its settlement currency.
#[derive(Clone, Debug)]
pub struct Account {
    pub open_positions: Vec<OpenPosition>,
    pub cash: Rational,
    pub currency: String,
    pub buying_power: Rational,
}

/// The reply to placing an order.
#[derive(Clone, Debug, PartialEq)]
pub struct OrderResponse {
    pub order_id: String,
}

} // verus!
