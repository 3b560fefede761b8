use std::sync::{Arc, RwLock};

use irontrade::assets::AssetPair;
use irontrade::broker::SimulatedBrokerBuilder;
use irontrade::client::SimulatedClient;
use irontrade::common::{Amount, Bar, OrderStatus};
use irontrade::environment::{
    select_published_bar, BarDataSource, Clock, SimulatedContext, SimulatedEnvironment,
    SimulatedEnvironmentBuilder,
};
use irontrade::errors::TradeError;
use irontrade::rational::Rational;
use irontrade::request::OrderRequest;

const MINUTE: i64 = 60_000;
const SECOND: i64 = 1_000;
const CURRENT_TIME: i64 = 1_766_000_000_000;

fn whole(n: i64) -> Rational {
    Rational::from_int(n)
}

fn pair(s: &str) -> AssetPair {
    AssetPair::from_str(s).unwrap()
}

#[derive(Clone)]
struct StepClock {
    initial_time: i64,
    added_duration: Arc<RwLock<i64>>,
}

impl Clock for StepClock {
    fn now(&self) -> i64 {
        self.initial_time + *self.added_duration.read().unwrap()
    }
}

#[derive(Clone)]
struct TestClock;

impl Clock for TestClock {
    fn now(&self) -> i64 {
        CURRENT_TIME
    }
}

#[derive(Clone)]
struct DataSource {
    ordered_bars: Vec<Bar>,
}

impl BarDataSource for DataSource {
    fn get_bar(
        &self,
        _asset_pair: &AssetPair,
        date_time: i64,
        _bar_duration: i64,
    ) -> Result<Option<Bar>, TradeError> {
        for bar in self.ordered_bars.iter().rev() {
            if bar.date_time <= date_time {
                return Ok(Some(bar.clone()));
            }
        }
        Ok(None)
    }
}

#[derive(Clone)]
struct TestDataSource;

impl BarDataSource for TestDataSource {
    fn get_bar(
        &self,
        _asset_pair: &AssetPair,
        _date_time: i64,
        _bar_duration: i64,
    ) -> Result<Option<Bar>, TradeError> {
        panic!("Test method")
    }
}

fn create_bar(low: i64, high: i64, date_time: i64) -> Bar {
    Bar { low: whole(low), high: whole(high), open: whole(low), close: whole(high), date_time }
}

fn create_environment<B, C>(
    data_source: B,
    clock: C,
    pairs_to_trade: Vec<AssetPair>,
) -> SimulatedEnvironment<B, C>
where
    B: BarDataSource,
    C: Clock,
{
    SimulatedEnvironmentBuilder::new(
        SimulatedContext::new(data_source, clock),
        SimulatedClient::new(
            SimulatedBrokerBuilder::new("GBP").set_balance(whole(100_000)).build(),
        ),
    )
    .set_crypto_pairs_to_trade(pairs_to_trade)
    .set_bar_duration(MINUTE)
    .set_refresh_duration(30 * SECOND)
    .build()
    .unwrap()
}

#[test]
fn init_twice() {
    let mut env = create_environment(TestDataSource, TestClock, Vec::new());
    env.init().unwrap();
    let err = env.init().unwrap_err();
    assert_eq!(err.message(), "Environment has already been initialized");
}

#[test]
fn place_order_without_init() {
    let mut env = create_environment(TestDataSource, TestClock, Vec::new());
    let err = env
        .place_order(OrderRequest::create_market_buy(
            pair("USDT/GBP"),
            Amount::Quantity { quantity: whole(10) },
        ))
        .unwrap_err();
    assert_eq!(err.message(), "Environment has not been initialized");
}

#[test]
fn place_order_without_bars() {
    let bar_from_three_minutes_ago = create_bar(10, 20, CURRENT_TIME - 3 * MINUTE);
    let data_source = DataSource { ordered_bars: vec![bar_from_three_minutes_ago] };
    let added_duration = Arc::new(RwLock::new(0i64));
    let clock = StepClock {
        initial_time: CURRENT_TIME - 5 * MINUTE,
        added_duration: added_duration.clone(),
    };
    let mut env = create_environment(data_source, clock, Vec::new());
    env.init().unwrap();

    let result = env.place_order(OrderRequest::create_market_buy(
        pair("COIN/GBP"),
        Amount::Quantity { quantity: whole(10) },
    ));
    assert!(result.is_err());
}

#[test]
fn place_market_order_after_updating_to_current_time() {
    let bar_from_three_minutes_ago = create_bar(10, 20, CURRENT_TIME - 3 * MINUTE);
    let data_source = DataSource { ordered_bars: vec![bar_from_three_minutes_ago] };
    let added_duration = Arc::new(RwLock::new(0i64));
    let clock = StepClock {
        initial_time: CURRENT_TIME - 5 * MINUTE,
        added_duration: added_duration.clone(),
    };
    let pairs_to_trade = vec![pair("COIN/GBP")];
    let mut env = create_environment(data_source, clock, pairs_to_trade);
    env.init().unwrap();
    *added_duration.write().unwrap() += 5 * MINUTE;
    env.update().unwrap();

    let order_id = env
        .place_order(OrderRequest::create_market_buy(
            pair("COIN/GBP"),
            Amount::Quantity { quantity: whole(10) },
        ))
        .unwrap();
    assert_ne!(order_id, "");
}

#[test]
fn place_limit_order() {
    let bar_from_three_minutes_ago = create_bar(10, 20, CURRENT_TIME - 3 * MINUTE);
    let bar_from_two_minutes_ago = create_bar(5, 10, CURRENT_TIME - 2 * MINUTE);
    let data_source = DataSource {
        ordered_bars: vec![bar_from_three_minutes_ago, bar_from_two_minutes_ago],
    };
    let added_duration = Arc::new(RwLock::new(0i64));
    let clock = StepClock {
        initial_time: CURRENT_TIME - 5 * MINUTE,
        added_duration: added_duration.clone(),
    };
    let pairs_to_trade = vec![pair("COIN/GBP")];
    let mut env = create_environment(data_source, clock, pairs_to_trade);
    env.init().unwrap();
    *added_duration.write().unwrap() += 2 * MINUTE;
    env.update().unwrap();

    let order_id = env
        .place_order(OrderRequest::create_limit_buy(
            pair("COIN/GBP"),
            Amount::Quantity { quantity: whole(10) },
            whole(9),
        ))
        .unwrap();
    assert_eq!(env.get_order(&order_id).unwrap().status, OrderStatus::New);

    *added_duration.write().unwrap() += 2 * MINUTE;
    assert_eq!(env.get_order(&order_id).unwrap().status, OrderStatus::Filled);
}

#[test]
fn get_orders_without_init() {
    let mut env = create_environment(TestDataSource, TestClock, Vec::new());
    let err = env.get_orders().unwrap_err();
    assert_eq!(err.message(), "Environment has not been initialized");
}

#[test]
fn get_order_without_init() {
    let mut env = create_environment(TestDataSource, TestClock, Vec::new());
    let err = env.get_order("123").unwrap_err();
    assert_eq!(err.message(), "Environment has not been initialized");
}

#[test]
fn get_account_without_init() {
    let mut env = create_environment(TestDataSource, TestClock, Vec::new());
    let err = env.get_account().unwrap_err();
    assert_eq!(err.message(), "Environment has not been initialized");
}

#[test]
fn get_latest_bar_current_time() {
    let crypto_pair = pair("COIN/GBP");
    let bar_from_three_minutes_ago = create_bar(10, 20, CURRENT_TIME - 3 * MINUTE);
    let data_source = DataSource { ordered_bars: vec![bar_from_three_minutes_ago.clone()] };
    let added_duration = Arc::new(RwLock::new(0i64));
    let clock = StepClock { initial_time: CURRENT_TIME, added_duration: added_duration.clone() };
    let mut env = create_environment(data_source, clock, Vec::new());
    env.init().unwrap();

    assert_eq!(
        env.get_latest_minute_bar(&crypto_pair).unwrap(),
        Some(bar_from_three_minutes_ago)
    );
}

#[test]
fn get_latest_bar_no_bars_yet_at_clock_time() {
    let crypto_pair = pair("COIN/GBP");
    let bar_from_three_minutes_ago = create_bar(10, 20, CURRENT_TIME - 3 * MINUTE);
    let data_source = DataSource { ordered_bars: vec![bar_from_three_minutes_ago] };
    let added_duration = Arc::new(RwLock::new(0i64));
    let clock = StepClock {
        initial_time: CURRENT_TIME - 5 * MINUTE,
        added_duration: added_duration.clone(),
    };
    let mut env = create_environment(data_source, clock, Vec::new());
    env.init().unwrap();

    *added_duration.write().unwrap() += MINUTE + 59 * SECOND;
    assert_eq!(env.get_latest_minute_bar(&crypto_pair).unwrap(), None);
}

#[test]
fn get_latest_bar_overlapping_bar() {
    let crypto_pair = pair("COIN/GBP");
    let bar_from_three_minutes_ago = create_bar(10, 20, CURRENT_TIME - 3 * MINUTE);
    let bar_from_two_minutes_ago = create_bar(100, 200, CURRENT_TIME - 2 * MINUTE);
    let data_source = DataSource {
        ordered_bars: vec![bar_from_three_minutes_ago.clone(), bar_from_two_minutes_ago],
    };
    let added_duration = Arc::new(RwLock::new(0i64));
    let clock = StepClock {
        initial_time: CURRENT_TIME - 5 * MINUTE,
        added_duration: added_duration.clone(),
    };
    let mut env = create_environment(data_source, clock, Vec::new());
    env.init().unwrap();

    *added_duration.write().unwrap() += 3 * MINUTE + 59 * SECOND;
    assert_eq!(
        env.get_latest_minute_bar(&crypto_pair).unwrap(),
        Some(bar_from_three_minutes_ago)
    );
}

#[derive(Clone)]
struct FailingDataSource;

impl BarDataSource for FailingDataSource {
    fn get_bar(
        &self,
        _asset_pair: &AssetPair,
        _date_time: i64,
        _bar_duration: i64,
    ) -> Result<Option<Bar>, TradeError> {
        Err(TradeError::DataSource(String::from("feed is down")))
    }
}

#[test]
fn data_source_failures_are_reported() {
    let mut env = create_environment(FailingDataSource, TestClock, vec![pair("COIN/GBP")]);
    let err = env.init().unwrap_err();
    assert_eq!(err.message(), "Bar data source failure: feed is down");
}

#[test]
fn select_published_bar_returns_closed_bar() {
    let closed = create_bar(10, 20, CURRENT_TIME - 3 * MINUTE);
    assert_eq!(
        select_published_bar(Some(closed.clone()), None, MINUTE, CURRENT_TIME),
        Some(closed)
    );
}

#[test]
fn select_published_bar_replaces_forming_bar() {
    let forming = create_bar(100, 200, CURRENT_TIME - 30 * SECOND);
    let earlier = create_bar(10, 20, CURRENT_TIME - 3 * MINUTE);
    assert_eq!(
        select_published_bar(Some(forming.clone()), Some(earlier.clone()), MINUTE, CURRENT_TIME),
        Some(earlier)
    );
    assert_eq!(select_published_bar(Some(forming), None, MINUTE, CURRENT_TIME), None);
    assert_eq!(select_published_bar(None, None, MINUTE, CURRENT_TIME), None);
}

#[test]
fn build_rejects_non_positive_durations() {
    let context = SimulatedContext::new(TestDataSource, TestClock);
    let client = SimulatedClient::new(SimulatedBrokerBuilder::new("GBP").build());
    let err = match SimulatedEnvironmentBuilder::new(context, client)
        .set_refresh_duration(0)
        .build()
    {
        Ok(_) => panic!("a zero refresh duration must be rejected"),
        Err(e) => e,
    };
    assert_eq!(err.message(), "Durations must be positive");
}
