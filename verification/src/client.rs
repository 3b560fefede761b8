//! The client facade over the simulated broker: order placement and
//! account aggregation in the shape a generic trading client expects.

use vstd::prelude::*;

use crate::assets::AssetPair;
use crate::broker::{place_order_post, set_price_post, SimulatedBroker};
use crate::common::{Account, OpenPosition, Order};
use crate::errors::TradeError;
use crate::rational::{rat_mul, rat_norm, Rational};
use crate::request::OrderRequest;

verus! {

/// Whether every non-currency asset with a nonzero balance can be
/// valued: its pair against the currency has a price, and the product
/// fits the numeric range.
pub open spec fn positions_valuable(b: SimulatedBroker) -> bool {
    forall|i: int|
        0 <= i < b.balance_entries().len() && (#[trigger] b.balance_entries()[i]).0
            != b.currency_of() && b.balance_entries()[i].1.n != 0 ==> {
            let sym = b.balance_entries()[i].0;
            &&& b.price_of((sym, b.currency_of())) is Some
            &&& crate::rational::rat_fits(
                rat_mul(b.balance_of(sym), b.price_of((sym, b.currency_of())).unwrap()@),
            )
        }
}

/// A synchronous client around a [`SimulatedBroker`].
pub struct SimulatedClient {
    broker: SimulatedBroker,
}

impl SimulatedClient {
    /// The wrapped broker.
    pub closed spec fn broker(&self) -> SimulatedBroker {
        self.broker
    }

    pub fn new(broker: SimulatedBroker) -> (r: SimulatedClient)
        ensures
            r.broker() == broker,
    {
        SimulatedClient { broker }
    }

    /// Stores a price through to the broker; see
    /// [`SimulatedBroker::set_notional_per_unit`].
    pub fn set_notional_per_unit(&mut self, asset_pair: AssetPair, notional_per_unit: Rational) -> (
        r: Result<(), TradeError>)
        requires
            old(self).broker().wf(),
            notional_per_unit.wf(),
        ensures
            final(self).broker().wf(),
            set_price_post(
                old(self).broker(),
                asset_pair,
                notional_per_unit,
                r,
                final(self).broker(),
            ),
    {
        self.broker.set_notional_per_unit(asset_pair, notional_per_unit)
    }

    /// Places an order with the broker; see
    /// [`SimulatedBroker::place_order`].
    pub fn place_order(&mut self, req: OrderRequest) -> (r: Result<String, TradeError>)
        requires
            old(self).broker().wf(),
            req.amount.wf(),
            req.limit_price matches Some(l) ==> l.wf(),
        ensures
            final(self).broker().wf(),
            place_order_post(old(self).broker(), req, r, final(self).broker()),
    {
        self.broker.place_order(req)
    }

    /// A snapshot of every order.
    pub fn get_orders(&mut self) -> (r: Result<Vec<Order>, TradeError>)
        requires
            old(self).broker().wf(),
        ensures
            *final(self) == *old(self),
            r matches Ok(v) && v@.len() == old(self).broker().orders_model().len() && forall|
                i: int,
            |
                0 <= i < v@.len() ==> v@[i] == (#[trigger] old(self).broker().orders_model()[i]).2,
    {
        Ok(self.broker.get_orders())
    }

    /// The order with the given id.
    pub fn get_order(&mut self, order_id: &str) -> (r: Result<Order, TradeError>)
        requires
            old(self).broker().wf(),
        ensures
            *final(self) == *old(self),
            match old(self).broker().order_of(order_id@) {
                Some(o) => r == Ok::<Order, TradeError>(o),
                None => r matches Err(e) && e matches TradeError::OrderNotFound(id) && id@
                    == order_id@,
            },
    {
        self.broker.get_order(order_id)
    }

    /// One valued position for a non-currency holding.
    fn get_open_position(&self, asset_symbol: &str) -> (r: Result<OpenPosition, TradeError>)
        requires
            self.broker().wf(),
        ensures
            r matches Ok(p) ==> {
                &&& p.asset_symbol@ == asset_symbol@
                &&& p.average_entry_price is None
                &&& p.quantity@ == self.broker().balance_of(asset_symbol@)
                &&& (self.broker().price_of((asset_symbol@, self.broker().currency_of()))
                    matches Some(pr) && (p.market_value matches Some(v) && v@ == rat_norm(
                    rat_mul(self.broker().balance_of(asset_symbol@), pr@),
                )))
            },
            r is Ok <==> (self.broker().price_of((asset_symbol@, self.broker().currency_of()))
                is Some && crate::rational::rat_fits(
                rat_mul(
                    self.broker().balance_of(asset_symbol@),
                    self.broker().price_of((asset_symbol@, self.broker().currency_of())).unwrap()@,
                ),
            )),
    {
        proof {
            self.broker.lemma_wf_currency();
        }
        let balance = self.broker.get_balance(asset_symbol);
        let pair = AssetPair {
            quantity_asset: String::from_str(asset_symbol),
            notional_asset: self.broker.get_currency(),
        };
        let notional_per_unit = match self.broker.get_notional_per_unit(&pair) {
            Ok(v) => v,
            Err(e) => {
                return Err(e);
            },
        };
        let market_value = match balance.checked_mul(&notional_per_unit) {
            Some(v) => v,
            None => {
                return Err(TradeError::NumericOverflow);
            },
        };
        Ok(
            OpenPosition {
                asset_symbol: String::from_str(asset_symbol),
                average_entry_price: None,
                quantity: balance,
                market_value: Some(market_value),
            },
        )
    }

    /// The account: cash and buying power in the settlement currency,
    /// and one valued open position per non-currency asset with a
    /// nonzero balance.  Succeeds exactly when every such position can
    /// be valued at a stored price.
    pub fn get_account(&mut self) -> (r: Result<Account, TradeError>)
        requires
            old(self).broker().wf(),
        ensures
            *final(self) == *old(self),
            r is Ok <==> positions_valuable(old(self).broker()),
            r matches Ok(acc) ==> {
                let b = old(self).broker();
                &&& acc.currency@ == b.currency_of()
                &&& acc.cash@ == b.balance_of(b.currency_of())
                &&& acc.buying_power@ == b.buying_power_of(b.currency_of())
                &&& forall|j: int|
                    0 <= j < acc.open_positions@.len() ==> {
                        let p = #[trigger] acc.open_positions@[j];
                        &&& p.asset_symbol@ != b.currency_of()
                        &&& p.quantity@ == b.balance_of(p.asset_symbol@)
                        &&& p.average_entry_price is None
                        &&& (b.price_of((p.asset_symbol@, b.currency_of())) matches Some(pr) && (
                        p.market_value matches Some(v) && v@ == rat_norm(
                            rat_mul(b.balance_of(p.asset_symbol@), pr@),
                        )))
                    }
                &&& forall|i: int|
                    0 <= i < b.balance_entries().len() && (#[trigger] b.balance_entries()[i]).0
                        != b.currency_of() && b.balance_entries()[i].1.n != 0 ==> exists|j: int|
                        0 <= j < acc.open_positions@.len() && (
                        #[trigger] acc.open_positions@[j]).asset_symbol@
                            == b.balance_entries()[i].0
                &&& forall|j1: int, j2: int|
                    0 <= j1 < j2 < acc.open_positions@.len() ==> (
                    #[trigger] acc.open_positions@[j1]).asset_symbol@ != (
                    #[trigger] acc.open_positions@[j2]).asset_symbol@
            },
    {
        let currency = self.broker.get_currency();
        let symbols = self.broker.get_purchased_asset_symbols();
        let mut open_positions: Vec<OpenPosition> = Vec::new();
        let n = symbols.len();
        let mut i: usize = 0;
        while i < n
            invariant
                0 <= i <= n,
                n == symbols@.len(),
                self.broker().wf(),
                forall|j: int|
                    0 <= j < symbols@.len() ==> (#[trigger] symbols@[j])@
                        != self.broker().currency_of() && self.broker().balance_of(symbols@[j]@).n
                        != 0,
                open_positions@.len() == i,
                forall|j: int|
                    0 <= j < i ==> {
                        let p = #[trigger] open_positions@[j];
                        let b = self.broker();
                        &&& p.asset_symbol@ == symbols@[j]@
                        &&& p.asset_symbol@ != b.currency_of()
                        &&& p.quantity@ == b.balance_of(p.asset_symbol@)
                        &&& p.average_entry_price is None
                        &&& (b.price_of((p.asset_symbol@, b.currency_of())) matches Some(pr) && (
                        p.market_value matches Some(v) && v@ == rat_norm(
                            rat_mul(b.balance_of(p.asset_symbol@), pr@),
                        )))
                    },
                forall|j: int|
                    0 <= j < i ==> (self.broker().price_of(
                        ((#[trigger] symbols@[j])@, self.broker().currency_of()),
                    ) is Some && crate::rational::rat_fits(
                        rat_mul(
                            self.broker().balance_of(symbols@[j]@),
                            self.broker().price_of(
                                (symbols@[j]@, self.broker().currency_of()),
                            ).unwrap()@,
                        ),
                    )),
            decreases n - i,
        {
            let position = match self.get_open_position(symbols[i].as_str()) {
                Ok(p) => p,
                Err(e) => {
                    proof {
                        let b = self.broker();
                        let sym = symbols@[i as int]@;
                        b.lemma_balance_has_entry(sym);
                        let m = choose|m: int|
                            0 <= m < b.balance_entries().len() && (
                            #[trigger] b.balance_entries()[m]).0 == sym
                                && b.balance_entries()[m].1 == b.balance_of(sym);
                        assert(!positions_valuable(b));
                    }
                    return Err(e);
                },
            };
            open_positions.push(position);
            i = i + 1;
        }
        let cash = self.broker.get_balance(currency.as_str());
        let buying_power = self.broker.get_buying_power(currency.as_str());
        proof {
            assert forall|m: int|
                0 <= m < self.broker().balance_entries().len() && (
                #[trigger] self.broker().balance_entries()[m]).0 != self.broker().currency_of()
                    && self.broker().balance_entries()[m].1.n != 0 implies {
                let b = self.broker();
                &&& b.price_of((b.balance_entries()[m].0, b.currency_of())) is Some
                &&& crate::rational::rat_fits(
                    rat_mul(
                        b.balance_of(b.balance_entries()[m].0),
                        b.price_of((b.balance_entries()[m].0, b.currency_of())).unwrap()@,
                    ),
                )
            } by {
                let b = self.broker();
                let sym = b.balance_entries()[m].0;
                b.lemma_balance_entry(m);
                let j = choose|j: int| 0 <= j < symbols@.len() && (#[trigger] symbols@[j])@ == sym;
                assert(0 <= j < symbols@.len() && symbols@[j]@ == sym);
            }
            assert forall|m: int|
                0 <= m < self.broker().balance_entries().len() && (
                #[trigger] self.broker().balance_entries()[m]).0 != self.broker().currency_of()
                    && self.broker().balance_entries()[m].1.n != 0 implies exists|j: int|
                0 <= j < open_positions@.len() && (#[trigger] open_positions@[j]).asset_symbol@
                    == self.broker().balance_entries()[m].0 by {
                let b = self.broker();
                let sym = b.balance_entries()[m].0;
                b.lemma_balance_entry(m);
                let j = choose|j: int| 0 <= j < symbols@.len() && (#[trigger] symbols@[j])@ == sym;
                assert(open_positions@[j].asset_symbol@ == sym);
            }
        }
        Ok(Account { open_positions, cash, currency, buying_power })
    }
}

impl crate::api::Client for SimulatedClient {
    closed spec fn client_wf(&self) -> bool {
        self.broker().wf()
    }

    fn place_order(&mut self, req: OrderRequest) -> (r: Result<String, TradeError>) {
        self.place_order(req)
    }

    fn get_orders(&mut self) -> (r: Result<Vec<Order>, TradeError>) {
        self.get_orders()
    }

    fn get_order(&mut self, order_id: &str) -> (r: Result<Order, TradeError>) {
        self.get_order(order_id)
    }

    fn get_account(&mut self) -> (r: Result<Account, TradeError>) {
        self.get_account()
    }
}

} // verus!
