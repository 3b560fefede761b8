//! The time-driven market simulation: replays bar data into the
//! broker's price table as time advances, re-evaluating pending limit
//! orders, and answers client and market queries on fresh state.

use vstd::prelude::*;
use vstd::string::StringExecFns;

use crate::assets::AssetPair;
use crate::broker::{broker_reachable, broker_step, place_order_post, SimulatedBroker};
use crate::client::positions_valuable;
use crate::client::SimulatedClient;
use crate::common::{Account, Bar, Order};
use crate::errors::TradeError;
use crate::rational::Rational;
use crate::request::OrderRequest;

verus! {

/// The current simulated time, in milliseconds.  Implemented by the
/// caller; nothing is assumed about the values it returns.
pub trait Clock {
    fn now(&self) -> (r: i64);
}

/// Historical bar data.  Implemented by the caller: the bar for a
/// pair that is visible at `date_time`, aggregated over windows of
/// `bar_duration` milliseconds, or `None` when there is none yet.
pub trait BarDataSource {
    fn get_bar(&self, asset_pair: &AssetPair, date_time: i64, bar_duration: i64) -> (r: Result<
        Option<Bar>,
        TradeError,
    >);
}

/// The outside collaborators an environment runs on: a clock and a
/// bar data source.
pub struct SimulatedContext<B: BarDataSource, C: Clock> {
    clock: C,
    bar_data_source: B,
}

impl<B: BarDataSource, C: Clock> SimulatedContext<B, C> {
    pub fn new(bar_data_source: B, clock: C) -> (r: SimulatedContext<B, C>) {
        SimulatedContext { clock, bar_data_source }
    }

    pub fn clock(&self) -> (r: &C) {
        &self.clock
    }

    pub fn bar_data_source(&self) -> (r: &B) {
        &self.bar_data_source
    }
}

/// Whether a bar whose window starts at `date_time` has fully elapsed
/// by `now`.  Only closed bars are published to callers.
pub fn bar_is_closed(date_time: i64, bar_duration: i64, now: i64) -> (r: bool)
    ensures
        r == (date_time + bar_duration <= now),
{
    (date_time as i128) + (bar_duration as i128) <= (now as i128)
}

/// The look-ahead rule on bar queries: publish the bar fetched at
/// `now` when its window has elapsed; while it is still forming,
/// publish whatever the query one window earlier produced; publish
/// nothing when there was no bar at all.
pub open spec fn spec_published_bar(
    fetched: Option<Bar>,
    fetched_earlier: Option<Bar>,
    bar_duration: i64,
    now: i64,
) -> Option<Bar> {
    match fetched {
        None => None,
        Some(b) => if b.date_time + bar_duration <= now {
            Some(b)
        } else {
            fetched_earlier
        },
    }
}

/// Decides what a bar query answers, given the bar fetched at `now`
/// and the one fetched one window earlier: exactly
/// [`spec_published_bar`].
pub fn select_published_bar(
    fetched: Option<Bar>,
    fetched_earlier: Option<Bar>,
    bar_duration: i64,
    now: i64,
) -> (r: Option<Bar>)
    ensures
        r == spec_published_bar(fetched, fetched_earlier, bar_duration, now),
{
    match fetched {
        None => None,
        Some(b) => {
            if bar_is_closed(b.date_time, bar_duration, now) {
                Some(b)
            } else {
                fetched_earlier
            }
        },
    }
}

/// Drives a [`SimulatedClient`] forward in time: on every update it
/// steps from the last processed time to "now" in refresh-sized
/// steps, pushing the mid price `(low + high) / 2` of each tracked
/// pair's current bar into the broker, which re-evaluates pending
/// limit orders.
pub struct SimulatedEnvironment<B: BarDataSource, C: Clock> {
    context: SimulatedContext<B, C>,
    client: SimulatedClient,
    last_processed_time: Option<i64>,
    crypto_pairs_to_trade: Vec<AssetPair>,
    bar_duration: i64,
    refresh_duration: i64,
}

impl<B: BarDataSource, C: Clock> SimulatedEnvironment<B, C> {
    /// A valid environment: a well-formed broker and positive
    /// durations, so that updates terminate.
    pub closed spec fn wf(&self) -> bool {
        &&& self.client.broker().wf()
        &&& self.bar_duration >= 1
        &&& self.refresh_duration >= 1
    }

    /// Whether `init` has run.
    pub closed spec fn initialized(&self) -> bool {
        self.last_processed_time is Some
    }

    /// The last processed time, `None` before `init`.
    pub closed spec fn last_time(&self) -> Option<i64> {
        self.last_processed_time
    }

    /// The broker behind the environment's client.
    pub closed spec fn broker(&self) -> SimulatedBroker {
        self.client.broker()
    }

    /// The pairs whose prices the simulation replays.
    pub closed spec fn tracked_pairs(&self) -> Seq<AssetPair> {
        self.crypto_pairs_to_trade@
    }

    /// The bar window and refresh step, in milliseconds.
    pub closed spec fn durations(&self) -> (i64, i64) {
        (self.bar_duration, self.refresh_duration)
    }

    fn new(
        context: SimulatedContext<B, C>,
        client: SimulatedClient,
        crypto_pairs_to_trade: Vec<AssetPair>,
        bar_duration: i64,
        refresh_duration: i64,
    ) -> (r: SimulatedEnvironment<B, C>)
        requires
            client.broker().wf(),
            bar_duration >= 1,
            refresh_duration >= 1,
        ensures
            r.wf(),
            !r.initialized(),
            r.broker() == client.broker(),
    {
        SimulatedEnvironment {
            context,
            client,
            last_processed_time: None,
            crypto_pairs_to_trade,
            bar_duration,
            refresh_duration,
        }
    }

    /// Must be called once, before any other operation: records the
    /// current time and performs the first update, with the same
    /// transition guarantee as [`Self::update`].
    pub fn init(&mut self) -> (r: Result<(), TradeError>)
        requires
            old(self).wf(),
        ensures
            final(self).wf(),
            old(self).initialized() ==> r == Err::<(), TradeError>(TradeError::AlreadyInitialized)
                && *final(self) == *old(self),
            r is Ok ==> final(self).initialized(),
            !old(self).initialized() ==> final(self).initialized() && (r matches Err(e) ==> (e
                matches TradeError::InvalidNotionalAsset(_) || e == TradeError::NumericOverflow
                || e matches TradeError::DataSource(_))),
            final(self).tracked_pairs() == old(self).tracked_pairs(),
            final(self).durations() == old(self).durations(),
            exists|steps: nat|
                #[trigger] broker_reachable(
                    old(self).broker(),
                    final(self).broker(),
                    old(self).tracked_pairs(),
                    steps,
                ),
    {
        if self.last_processed_time.is_some() {
            proof {
                assert(broker_reachable(
                    old(self).broker(),
                    self.client.broker(),
                    old(self).tracked_pairs(),
                    0nat,
                ));
            }
            return Err(TradeError::AlreadyInitialized);
        }
        let now = self.context.clock.now();
        self.last_processed_time = Some(now);
        let ghost before_update = *self;
        let r = self.update();
        proof {
            let steps0 = choose|steps: nat|
                #[trigger] broker_reachable(
                    before_update.broker(),
                    self.broker(),
                    before_update.tracked_pairs(),
                    steps,
                );
            assert(broker_reachable(
                old(self).broker(),
                self.broker(),
                old(self).tracked_pairs(),
                steps0,
            ));
        }
        r
    }

    /// Steps the simulation from the last processed time to "now",
    /// feeding each tracked pair's current mid price to the broker at
    /// every refresh step.  Whatever the clock and the data source
    /// answered, the broker evolved only by successful price writes of
    /// tracked pairs ([`broker_reachable`]), and the tracked pairs and
    /// durations are untouched.
    pub fn update(&mut self) -> (r: Result<(), TradeError>)
        requires
            old(self).wf(),
        ensures
            final(self).wf(),
            !old(self).initialized() ==> r == Err::<(), TradeError>(TradeError::NotInitialized)
                && *final(self) == *old(self),
            old(self).initialized() ==> !(r == Err::<(), TradeError>(TradeError::NotInitialized)),
            r is Ok ==> final(self).initialized(),
            r is Err ==> final(self).last_time() == old(self).last_time(),
            r matches Err(e) ==> (e == TradeError::NotInitialized || e matches
                TradeError::InvalidNotionalAsset(_) || e == TradeError::NumericOverflow || e
                matches TradeError::DataSource(_)),
            final(self).tracked_pairs() == old(self).tracked_pairs(),
            final(self).durations() == old(self).durations(),
            exists|steps: nat|
                #[trigger] broker_reachable(
                    old(self).broker(),
                    final(self).broker(),
                    old(self).tracked_pairs(),
                    steps,
                ),
    {
        let ghost pre = *self;
        let now = self.context.clock.now();
        let mut t: i64 = match self.last_processed_time {
            Some(v) => v,
            None => {
                proof {
                    assert(broker_reachable(
                        old(self).broker(),
                        self.broker(),
                        old(self).tracked_pairs(),
                        0nat,
                    ));
                }
                return Err(TradeError::NotInitialized);
            },
        };
        let ghost mut steps: nat = 0;
        proof {
            assert(broker_reachable(pre.broker(), self.client.broker(), pre.tracked_pairs(), 0nat));
        }
        while t <= now
            invariant
                self.wf(),
                pre == *old(self),
                pre.initialized(),
                self.last_processed_time == pre.last_time(),
                self.crypto_pairs_to_trade@ == pre.tracked_pairs(),
                self.bar_duration == pre.durations().0,
                self.refresh_duration == pre.durations().1,
                broker_reachable(pre.broker(), self.client.broker(), pre.tracked_pairs(), steps),
            decreases now - t,
        {
            let m = self.crypto_pairs_to_trade.len();
            let mut j: usize = 0;
            while j < m
                invariant
                    0 <= j <= m,
                    m == self.crypto_pairs_to_trade@.len(),
                    self.wf(),
                    pre == *old(self),
                    pre.initialized(),
                    self.last_processed_time == pre.last_time(),
                    self.crypto_pairs_to_trade@ == pre.tracked_pairs(),
                    self.bar_duration == pre.durations().0,
                    self.refresh_duration == pre.durations().1,
                    broker_reachable(
                        pre.broker(),
                        self.client.broker(),
                        pre.tracked_pairs(),
                        steps,
                    ),
                decreases m - j,
            {
                let bar_opt = match self.context.bar_data_source.get_bar(
                    &self.crypto_pairs_to_trade[j],
                    now,
                    self.bar_duration,
                ) {
                    Ok(b) => b,
                    Err(e) => {
                        // Whatever the data source reported becomes a
                        // data-source failure of this environment.
                        let msg = match e {
                            TradeError::DataSource(m) => m,
                            other => other.message(),
                        };
                        proof {
                            assert(broker_reachable(
                                old(self).broker(),
                                self.broker(),
                                old(self).tracked_pairs(),
                                steps,
                            ));
                        }
                        return Err(TradeError::DataSource(msg));
                    },
                };
                match bar_opt {
                    None => {},
                    Some(bar) => {
                        if !bar.low.check_wf() || !bar.high.check_wf() {
                            proof {
                                assert(broker_reachable(
                                    old(self).broker(),
                                    self.broker(),
                                    old(self).tracked_pairs(),
                                    steps,
                                ));
                            }
                            return Err(
                                TradeError::DataSource(
                                    String::from_str("bar holds an invalid number"),
                                ),
                            );
                        }
                        let sum = match bar.low.checked_add(&bar.high) {
                            Some(s) => s,
                            None => {
                                proof {
                                    assert(broker_reachable(
                                        old(self).broker(),
                                        self.broker(),
                                        old(self).tracked_pairs(),
                                        steps,
                                    ));
                                }
                                return Err(TradeError::NumericOverflow);
                            },
                        };
                        let half = Rational::new(1, 2).unwrap();
                        let value = match sum.checked_mul(&half) {
                            Some(v) => v,
                            None => {
                                proof {
                                    assert(broker_reachable(
                                        old(self).broker(),
                                        self.broker(),
                                        old(self).tracked_pairs(),
                                        steps,
                                    ));
                                }
                                return Err(TradeError::NumericOverflow);
                            },
                        };
                        let pair = self.crypto_pairs_to_trade[j].duplicate();
                        let ghost b_before = self.client.broker();
                        match self.client.set_notional_per_unit(pair, value) {
                            Ok(()) => {
                                proof {
                                    assert(crate::broker::set_price_post(
                                        b_before,
                                        pre.tracked_pairs()[j as int],
                                        value,
                                        Ok(()),
                                        self.client.broker(),
                                    ));
                                    assert(broker_step(
                                        b_before,
                                        self.client.broker(),
                                        pre.tracked_pairs(),
                                    ));
                                    steps = steps + 1;
                                    assert(broker_reachable(
                                        pre.broker(),
                                        self.client.broker(),
                                        pre.tracked_pairs(),
                                        steps,
                                    ));
                                }
                            },
                            Err(e) => {
                                proof {
                                    assert(broker_reachable(
                                        old(self).broker(),
                                        self.broker(),
                                        old(self).tracked_pairs(),
                                        steps,
                                    ));
                                }
                                return Err(e);
                            },
                        }
                    },
                }
                j = j + 1;
            }
            if t == now {
                break ;
            }
            let tn: i128 = (t as i128) + (self.refresh_duration as i128);
            t = if tn >= (now as i128) {
                now
            } else {
                tn as i64
            };
        }
        self.last_processed_time = Some(now);
        proof {
            assert(broker_reachable(
                old(self).broker(),
                self.broker(),
                old(self).tracked_pairs(),
                steps,
            ));
        }
        Ok(())
    }

    /// Refreshes the simulation, then places the order: the result
    /// relates to some broker state reachable from the old one by
    /// tracked-pair price writes, exactly as `place_order_post` says.
    pub fn place_order(&mut self, req: OrderRequest) -> (r: Result<String, TradeError>)
        requires
            old(self).wf(),
            req.amount.wf(),
            req.limit_price matches Some(l) ==> l.wf(),
        ensures
            final(self).wf(),
            !old(self).initialized() ==> r == Err::<String, TradeError>(TradeError::NotInitialized)
                && *final(self) == *old(self),
            r matches Ok(id) ==> final(self).initialized() && (final(self).broker().order_of(id@)
                matches Some(o) && o.order_id@ == id@ && o.amount == req.amount && o.limit_price
                == req.limit_price && o.side == req.side),
            final(self).tracked_pairs() == old(self).tracked_pairs(),
            final(self).durations() == old(self).durations(),
            exists|steps: nat, mid: SimulatedBroker|
                #[trigger] broker_reachable(
                    old(self).broker(),
                    mid,
                    old(self).tracked_pairs(),
                    steps,
                ) && (place_order_post(mid, req, r, final(self).broker()) || (r is Err
                    && final(self).broker() == mid)),
    {
        match self.update() {
            Ok(()) => {},
            Err(e) => {
                return Err(e);
            },
        }
        let ghost mid = self.client.broker();
        let r = self.client.place_order(req);
        proof {
            let steps = choose|steps: nat|
                #[trigger] broker_reachable(
                    old(self).broker(),
                    mid,
                    old(self).tracked_pairs(),
                    steps,
                );
            assert(broker_reachable(old(self).broker(), mid, old(self).tracked_pairs(), steps)
                && (place_order_post(mid, req, r, self.client.broker()) || (r is Err
                && self.client.broker() == mid)));
        }
        r
    }

    /// Refreshes the simulation, then returns every order.
    pub fn get_orders(&mut self) -> (r: Result<Vec<Order>, TradeError>)
        requires
            old(self).wf(),
        ensures
            final(self).wf(),
            !old(self).initialized() ==> r == Err::<Vec<Order>, TradeError>(
                TradeError::NotInitialized,
            ) && *final(self) == *old(self),
            r matches Ok(v) ==> v@.len() == final(self).broker().orders_model().len() && (forall|
                i: int,
            |
                0 <= i < v@.len() ==> v@[i] == (#[trigger] final(self).broker().orders_model()[i]).2),
            final(self).tracked_pairs() == old(self).tracked_pairs(),
            final(self).durations() == old(self).durations(),
            exists|steps: nat|
                #[trigger] broker_reachable(
                    old(self).broker(),
                    final(self).broker(),
                    old(self).tracked_pairs(),
                    steps,
                ),
    {
        match self.update() {
            Ok(()) => {},
            Err(e) => {
                return Err(e);
            },
        }
        self.client.get_orders()
    }

    /// Refreshes the simulation, then returns the order with the id.
    pub fn get_order(&mut self, order_id: &str) -> (r: Result<Order, TradeError>)
        requires
            old(self).wf(),
        ensures
            final(self).wf(),
            !old(self).initialized() ==> r == Err::<Order, TradeError>(TradeError::NotInitialized)
                && *final(self) == *old(self),
            r matches Ok(o) ==> final(self).broker().order_of(order_id@) == Some(o),
            r matches Err(e) ==> (e matches TradeError::OrderNotFound(id) ==> (id@ == order_id@
                && final(self).broker().order_of(order_id@) is None)),
            final(self).tracked_pairs() == old(self).tracked_pairs(),
            final(self).durations() == old(self).durations(),
            exists|steps: nat|
                #[trigger] broker_reachable(
                    old(self).broker(),
                    final(self).broker(),
                    old(self).tracked_pairs(),
                    steps,
                ),
    {
        match self.update() {
            Ok(()) => {},
            Err(e) => {
                return Err(e);
            },
        }
        self.client.get_order(order_id)
    }

    /// Refreshes the simulation, then aggregates the account; see
    /// [`SimulatedClient::get_account`].
    pub fn get_account(&mut self) -> (r: Result<Account, TradeError>)
        requires
            old(self).wf(),
        ensures
            final(self).wf(),
            !old(self).initialized() ==> r == Err::<Account, TradeError>(
                TradeError::NotInitialized,
            ) && *final(self) == *old(self),
            r matches Ok(acc) ==> {
                let b = final(self).broker();
                &&& positions_valuable(b)
                &&& acc.currency@ == b.currency_of()
                &&& acc.cash@ == b.balance_of(b.currency_of())
                &&& acc.buying_power@ == b.buying_power_of(b.currency_of())
                &&& forall|j: int|
                    0 <= j < acc.open_positions@.len() ==> {
                        let p = #[trigger] acc.open_positions@[j];
                        &&& p.asset_symbol@ != b.currency_of()
                        &&& p.quantity@ == b.balance_of(p.asset_symbol@)
                        &&& p.average_entry_price is None
                        &&& (b.price_of((p.asset_symbol@, b.currency_of())) matches Some(pr) && (
                        p.market_value matches Some(v) && v@ == crate::rational::rat_norm(
                            crate::rational::rat_mul(b.balance_of(p.asset_symbol@), pr@),
                        )))
                    }
                &&& forall|i: int|
                    0 <= i < b.balance_entries().len() && (#[trigger] b.balance_entries()[i]).0
                        != b.currency_of() && b.balance_entries()[i].1.n != 0 ==> exists|j: int|
                        0 <= j < acc.open_positions@.len() && (
                        #[trigger] acc.open_positions@[j]).asset_symbol@
                            == b.balance_entries()[i].0
                &&& forall|j1: int, j2: int|
                    0 <= j1 < j2 < acc.open_positions@.len() ==> (
                    #[trigger] acc.open_positions@[j1]).asset_symbol@ != (
                    #[trigger] acc.open_positions@[j2]).asset_symbol@
            },
            final(self).tracked_pairs() == old(self).tracked_pairs(),
            final(self).durations() == old(self).durations(),
            exists|steps: nat|
                #[trigger] broker_reachable(
                    old(self).broker(),
                    final(self).broker(),
                    old(self).tracked_pairs(),
                    steps,
                ),
    {
        match self.update() {
            Ok(()) => {},
            Err(e) => {
                return Err(e);
            },
        }
        self.client.get_account()
    }

    /// The most recent fully closed bar for the pair, at minute
    /// granularity.  The bar fetched at "now" and, when that one is
    /// still forming, the bar fetched one window earlier go through
    /// [`select_published_bar`], whose contract fixes the whole
    /// selection; a forming bar is never returned as fetched.
    pub fn get_latest_minute_bar(&self, asset_pair: &AssetPair) -> (r: Result<
        Option<Bar>,
        TradeError,
    >) {
        let now = self.context.clock.now();
        let bar_duration: i64 = 60000;
        let fetched = match self.context.bar_data_source.get_bar(asset_pair, now, bar_duration) {
            Ok(b) => b,
            Err(e) => {
                return Err(e);
            },
        };
        let still_forming = match &fetched {
            Some(b) => !bar_is_closed(b.date_time, bar_duration, now),
            None => false,
        };
        let fetched_earlier = if still_forming {
            let earlier: i64 = if now >= i64::MIN + 60000 {
                now - 60000
            } else {
                i64::MIN
            };
            match self.context.bar_data_source.get_bar(asset_pair, earlier, bar_duration) {
                Ok(b) => b,
                Err(e) => {
                    return Err(e);
                },
            }
        } else {
            None
        };
        Ok(select_published_bar(fetched, fetched_earlier, bar_duration, now))
    }
}

impl<B: BarDataSource, C: Clock> crate::api::Client for SimulatedEnvironment<B, C> {
    closed spec fn client_wf(&self) -> bool {
        self.wf()
    }

    fn place_order(&mut self, req: OrderRequest) -> (r: Result<String, TradeError>) {
        self.place_order(req)
    }

    fn get_orders(&mut self) -> (r: Result<Vec<Order>, TradeError>) {
        self.get_orders()
    }

    fn get_order(&mut self, order_id: &str) -> (r: Result<Order, TradeError>) {
        self.get_order(order_id)
    }

    fn get_account(&mut self) -> (r: Result<Account, TradeError>) {
        self.get_account()
    }
}

impl<B: BarDataSource, C: Clock> crate::api::Market for SimulatedEnvironment<B, C> {
    fn get_latest_minute_bar(&self, asset_pair: &AssetPair) -> (r: Result<
        Option<Bar>,
        TradeError,
    >) {
        self.get_latest_minute_bar(asset_pair)
    }
}

impl<B: BarDataSource, C: Clock> crate::api::Environment for SimulatedEnvironment<B, C> {

}

/// Assembles a [`SimulatedEnvironment`]; bar windows default to one
/// minute and the refresh step to thirty seconds.
pub struct SimulatedEnvironmentBuilder<B: BarDataSource, C: Clock> {
    context: SimulatedContext<B, C>,
    client: SimulatedClient,
    crypto_pairs_to_trade: Vec<AssetPair>,
    bar_duration: i64,
    refresh_duration: i64,
}

impl<B: BarDataSource, C: Clock> SimulatedEnvironmentBuilder<B, C> {
    pub closed spec fn wf(&self) -> bool {
        self.client.broker().wf()
    }

    pub closed spec fn durations(&self) -> (i64, i64) {
        (self.bar_duration, self.refresh_duration)
    }

    pub fn new(context: SimulatedContext<B, C>, client: SimulatedClient) -> (r:
        SimulatedEnvironmentBuilder<B, C>)
        requires
            client.broker().wf(),
        ensures
            r.wf(),
            r.durations() == (60000i64, 30000i64),
    {
        SimulatedEnvironmentBuilder {
            context,
            client,
            crypto_pairs_to_trade: Vec::new(),
            bar_duration: 60000,
            refresh_duration: 30000,
        }
    }

    pub fn set_crypto_pairs_to_trade(self, crypto_pairs_to_trade: Vec<AssetPair>) -> (r:
        SimulatedEnvironmentBuilder<B, C>)
        requires
            self.wf(),
        ensures
            r.wf(),
            r.durations() == self.durations(),
    {
        let mut b = self;
        b.crypto_pairs_to_trade = crypto_pairs_to_trade;
        b
    }

    pub fn set_bar_duration(self, bar_duration: i64) -> (r: SimulatedEnvironmentBuilder<B, C>)
        requires
            self.wf(),
        ensures
            r.wf(),
            r.durations() == (bar_duration, self.durations().1),
    {
        let mut b = self;
        b.bar_duration = bar_duration;
        b
    }

    pub fn set_refresh_duration(self, refresh_duration: i64) -> (r: SimulatedEnvironmentBuilder<
        B,
        C,
    >)
        requires
            self.wf(),
        ensures
            r.wf(),
            r.durations() == (self.durations().0, refresh_duration),
    {
        let mut b = self;
        b.refresh_duration = refresh_duration;
        b
    }

    /// The environment, not yet initialized.  Fails exactly when a
    /// duration is not positive, which would keep updates from
    /// terminating.
    pub fn build(self) -> (r: Result<SimulatedEnvironment<B, C>, TradeError>)
        requires
            self.wf(),
        ensures
            r is Ok <==> (self.durations().0 >= 1 && self.durations().1 >= 1),
            r is Err ==> r == Err::<SimulatedEnvironment<B, C>, TradeError>(
                TradeError::InvalidDuration,
            ),
            r matches Ok(env) ==> env.wf() && !env.initialized(),
    {
        if self.bar_duration < 1 || self.refresh_duration < 1 {
            return Err(TradeError::InvalidDuration);
        }
        Ok(
            SimulatedEnvironment::new(
                self.context,
                self.client,
                self.crypto_pairs_to_trade,
                self.bar_duration,
                self.refresh_duration,
            ),
        )
    }
}

} // verus!
