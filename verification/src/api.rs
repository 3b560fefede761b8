//! The generic trading interface: a client that places and reads
//! orders, a market that serves closed bars, and an environment that
//! is both.

use vstd::prelude::*;

use crate::assets::AssetPair;
use crate::common::{Account, Bar, Order};
use crate::errors::TradeError;
use crate::request::OrderRequest;

verus! {

/// A trading client: place orders and inspect orders and the account.
pub trait Client {
    /// The validity every operation preserves.
    spec fn client_wf(&self) -> bool;

    fn place_order(&mut self, req: OrderRequest) -> (r: Result<String, TradeError>)
        requires
            old(self).client_wf(),
            req.amount.wf(),
            req.limit_price matches Some(l) ==> l.wf(),
        ensures
            final(self).client_wf(),
    ;

    fn get_orders(&mut self) -> (r: Result<Vec<Order>, TradeError>)
        requires
            old(self).client_wf(),
        ensures
            final(self).client_wf(),
    ;

    fn get_order(&mut self, order_id: &str) -> (r: Result<Order, TradeError>)
        requires
            old(self).client_wf(),
        ensures
            final(self).client_wf(),
    ;

    fn get_account(&mut self) -> (r: Result<Account, TradeError>)
        requires
            old(self).client_wf(),
        ensures
            final(self).client_wf(),
    ;
}

/// A market-data source for the most recent fully closed bar.
pub trait Market {
    fn get_latest_minute_bar(&self, asset_pair: &AssetPair) -> (r: Result<
        Option<Bar>,
        TradeError,
    >);
}

/// A complete trading environment: client and market in one.
pub trait Environment: Client + Market {

}

} // verus!
