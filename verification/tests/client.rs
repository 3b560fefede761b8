use irontrade::assets::AssetPair;
use irontrade::broker::SimulatedBrokerBuilder;
use irontrade::client::SimulatedClient;
use irontrade::common::{Amount, OpenPosition, Order, OrderSide, OrderStatus, OrderType};
use irontrade::rational::Rational;
use irontrade::request::OrderRequest;

const TEN_DOLLARS_COIN: &str = "TEN";
const TEN_DOLLARS_CRYPTO_PAIR: &str = "TEN/USD";

fn rat(n: i64, d: i64) -> Rational {
    Rational::new(n, d).unwrap()
}

fn whole(n: i64) -> Rational {
    Rational::from_int(n)
}

fn pair(s: &str) -> AssetPair {
    AssetPair::from_str(s).unwrap()
}

fn create_client() -> SimulatedClient {
    let broker = SimulatedBrokerBuilder::new("USD").set_balance(whole(1000)).build();
    let mut client = SimulatedClient::new(broker);
    client.set_notional_per_unit(pair(TEN_DOLLARS_CRYPTO_PAIR), whole(10)).unwrap();
    client
}

#[test]
fn client_buy_market_returns_order_id() {
    let mut client = create_client();

    let order_request = OrderRequest::create_market_buy(
        pair(TEN_DOLLARS_CRYPTO_PAIR),
        Amount::Notional { notional: whole(10) },
    );

    let order_id = client.place_order(order_request).unwrap();

    assert_ne!(order_id, "");
}

#[test]
fn client_sell_market_returns_order_id() {
    let mut client = create_client();

    let buy_request = OrderRequest::create_market_buy(
        pair(TEN_DOLLARS_CRYPTO_PAIR),
        Amount::Notional { notional: whole(10) },
    );

    client.place_order(buy_request).unwrap();

    let sell_request = OrderRequest::create_market_sell(
        pair(TEN_DOLLARS_CRYPTO_PAIR),
        Amount::Notional { notional: whole(10) },
    );
    let order_id = client.place_order(sell_request).unwrap();

    assert_ne!(order_id, "");
}

#[test]
fn client_get_orders_returns_all_placed_orders() {
    let mut client = create_client();

    assert_eq!(client.get_orders().unwrap().len(), 0);

    let buy_request = OrderRequest::create_market_buy(
        pair(TEN_DOLLARS_CRYPTO_PAIR),
        Amount::Notional { notional: whole(10) },
    );

    let buy_order_id = client.place_order(buy_request).unwrap();

    assert_eq!(client.get_orders().unwrap().len(), 1);

    let sell_request = OrderRequest::create_market_sell(
        pair(TEN_DOLLARS_CRYPTO_PAIR),
        Amount::Notional { notional: whole(10) },
    );

    let sell_order_id = client.place_order(sell_request).unwrap();

    assert_eq!(client.get_orders().unwrap().len(), 2);

    let buy_order = client.get_order(&buy_order_id).unwrap();

    let expected_order = Order {
        order_id: buy_order_id,
        asset_symbol: TEN_DOLLARS_CRYPTO_PAIR.into(),
        amount: Amount::Notional { notional: whole(10) },
        limit_price: None,
        filled_quantity: whole(1),
        average_fill_price: Some(whole(10)),
        status: OrderStatus::Filled,
        type_: OrderType::Market,
        side: OrderSide::Buy,
    };

    assert_eq!(buy_order, expected_order);

    let sell_order = client.get_order(&sell_order_id).unwrap();

    let expected_order = Order { order_id: sell_order_id, side: OrderSide::Sell, ..expected_order };

    assert_eq!(sell_order, expected_order);
}

#[test]
fn client_get_cash_returns_current_balance() {
    let mut client = create_client();

    assert_eq!(client.get_account().unwrap().cash, whole(1000));

    let order_request = OrderRequest::create_market_buy(
        pair(TEN_DOLLARS_CRYPTO_PAIR),
        Amount::Notional { notional: whole(10) },
    );

    client.place_order(order_request).unwrap();

    assert_eq!(client.get_account().unwrap().cash, whole(990));

    let order_request = OrderRequest::create_market_sell(
        pair(TEN_DOLLARS_CRYPTO_PAIR),
        Amount::Notional { notional: whole(5) },
    );
    client.place_order(order_request).unwrap();

    assert_eq!(client.get_account().unwrap().cash, whole(995));
}

#[test]
fn client_get_open_position() {
    let mut client = create_client();

    assert!(client
        .get_account()
        .unwrap()
        .open_positions
        .iter()
        .find(|p| p.asset_symbol == TEN_DOLLARS_COIN)
        .is_none());

    let order_request = OrderRequest::create_market_buy(
        pair(TEN_DOLLARS_CRYPTO_PAIR),
        Amount::Notional { notional: whole(15) },
    );

    client.place_order(order_request).unwrap();

    let account = client.get_account().unwrap();
    let position = account
        .open_positions
        .iter()
        .find(|p| p.asset_symbol == TEN_DOLLARS_COIN)
        .unwrap();
    assert_eq!(
        *position,
        OpenPosition {
            asset_symbol: TEN_DOLLARS_COIN.into(),
            average_entry_price: None,
            quantity: rat(15, 10),
            market_value: Some(whole(15)),
        }
    );

    let order_request = OrderRequest::create_market_sell(
        pair(TEN_DOLLARS_CRYPTO_PAIR),
        Amount::Notional { notional: whole(10) },
    );

    client.place_order(order_request).unwrap();

    let account = client.get_account().unwrap();
    let position = account
        .open_positions
        .iter()
        .find(|p| p.asset_symbol == TEN_DOLLARS_COIN)
        .unwrap();
    assert_eq!(
        *position,
        OpenPosition {
            asset_symbol: TEN_DOLLARS_COIN.into(),
            average_entry_price: None,
            quantity: rat(5, 10),
            market_value: Some(whole(5)),
        }
    );
}
