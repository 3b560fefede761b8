//! Order requests, as handed to a client or broker.

use vstd::prelude::*;

use crate::assets::AssetPair;
use crate::common::{Amount, OrderSide};
use crate::rational::Rational;

verus! {

/// What a caller asks a broker to do: trade `amount` of `asset_pair`,
/// optionally bounded by a limit price.
#[derive(Clone, Debug)]
pub struct OrderRequest {
    pub asset_pair: AssetPair,
    pub amount: Amount,
    pub limit_price: Option<Rational>,
    pub side: OrderSide,
}

impl OrderRequest {
    pub fn create_market_buy(asset_pair: AssetPair, amount: Amount) -> (r: OrderRequest)
        ensures
            r.asset_pair == asset_pair,
            r.amount == amount,
            r.limit_price is None,
            r.side == OrderSide::Buy,
    {
        OrderRequest { asset_pair, amount, limit_price: None, side: OrderSide::Buy }
    }

    pub fn create_market_sell(asset_pair: AssetPair, amount: Amount) -> (r: OrderRequest)
        ensures
            r.asset_pair == asset_pair,
            r.amount == amount,
            r.limit_price is None,
            r.side == OrderSide::Sell,
    {
        OrderRequest { asset_pair, amount, limit_price: None, side: OrderSide::Sell }
    }

    pub fn create_limit_buy(asset_pair: AssetPair, amount: Amount, limit_price: Rational) -> (r:
        OrderRequest)
        ensures
            r.asset_pair == asset_pair,
            r.amount == amount,
            r.limit_price == Some(limit_price),
            r.side == OrderSide::Buy,
    {
        OrderRequest { asset_pair, amount, limit_price: Some(limit_price), side: OrderSide::Buy }
    }

    pub fn create_limit_sell(asset_pair: AssetPair, amount: Amount, limit_price: Rational) -> (r:
        OrderRequest)
        ensures
            r.asset_pair == asset_pair,
            r.amount == amount,
            r.limit_price == Some(limit_price),
            r.side == OrderSide::Sell,
    {
        OrderRequest { asset_pair, amount, limit_price: Some(limit_price), side: OrderSide::Sell }
    }
}

} // verus!
