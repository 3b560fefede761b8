use irontrade::assets::AssetPair;
use irontrade::broker::{SimulatedBroker, SimulatedBrokerBuilder};
use irontrade::common::{Amount, Order, OrderSide, OrderStatus, OrderType};
use irontrade::ledger::Ledger;
use irontrade::rational::Rational;
use irontrade::request::OrderRequest;

fn rat(n: i64, d: i64) -> Rational {
    Rational::new(n, d).unwrap()
}

fn whole(n: i64) -> Rational {
    Rational::from_int(n)
}

fn pair(s: &str) -> AssetPair {
    AssetPair::from_str(s).unwrap()
}

#[test]
fn broker_place_order_invalid_asset_pair() {
    let mut broker = SimulatedBrokerBuilder::new("USD").set_balance(rat(141, 10)).build();

    let order_request = OrderRequest::create_market_buy(
        pair("AAPL/USD"),
        Amount::Quantity { quantity: whole(10) },
    );

    let err = broker.place_order(order_request).unwrap_err();

    assert_eq!(err.message(), "AAPL/USD does not have notional per unit");
}

#[test]
fn broker_place_order_no_balance() {
    let mut broker = SimulatedBrokerBuilder::new("USD").build();

    broker.set_notional_per_unit(pair("GBP/USD"), rat(131, 100)).unwrap();

    let order_request = OrderRequest::create_market_buy(
        pair("GBP/USD"),
        Amount::Quantity { quantity: whole(10) },
    );

    let err = broker.place_order(order_request).unwrap_err();

    assert_eq!(err.message(), "Not enough USD buying power");
}

#[test]
fn broker_place_order_close_but_not_enough_balance() {
    let mut broker = SimulatedBrokerBuilder::new("USD").build();

    broker.set_notional_per_unit(pair("GBP/USD"), rat(131, 100)).unwrap();

    broker.update_balance("USD", rat(1309, 100)).unwrap();

    let order_request = OrderRequest::create_market_buy(
        pair("GBP/USD"),
        Amount::Quantity { quantity: whole(10) },
    );

    let err = broker.place_order(order_request).unwrap_err();

    assert_eq!(err.message(), "Not enough USD buying power");
}

#[test]
fn broker_place_order_updates_balances() {
    let mut broker = SimulatedBrokerBuilder::new("USD").set_balance(rat(141, 10)).build();

    let _ = broker.set_notional_per_unit(pair("GBP/USD"), rat(131, 100));

    let order_request = OrderRequest::create_market_buy(
        pair("GBP/USD"),
        Amount::Quantity { quantity: whole(10) },
    );

    broker.place_order(order_request).unwrap();

    assert_eq!(broker.get_balance("USD"), whole(1));
    assert_eq!(broker.get_buying_power("USD"), whole(1));
    assert_eq!(broker.get_balance("GBP"), whole(10));
    assert_eq!(broker.get_buying_power("GBP"), whole(10));
}

#[test]
fn broker_place_order_returns_valid_order_id() {
    let mut broker = SimulatedBrokerBuilder::new("USD").set_balance(rat(141, 10)).build();

    broker.set_notional_per_unit(pair("GBP/USD"), rat(131, 100)).unwrap();

    let order_request = OrderRequest::create_market_buy(
        pair("GBP/USD"),
        Amount::Quantity { quantity: whole(10) },
    );

    let order_id = broker.place_order(order_request).unwrap();
    let order = broker.get_order(&order_id).unwrap();

    assert_eq!(order.order_id, order_id);
}

#[test]
fn get_market_buy_order() {
    let mut broker = SimulatedBrokerBuilder::new("USD").set_balance(rat(141, 10)).build();

    broker.set_notional_per_unit(pair("GBP/USD"), rat(132, 100)).unwrap();

    let order_request = OrderRequest::create_market_buy(
        pair("GBP/USD"),
        Amount::Quantity { quantity: whole(10) },
    );

    let order_id = broker.place_order(order_request).unwrap();

    let actual_order = broker.get_order(&order_id).unwrap();

    let expected_order = Order {
        order_id,
        asset_symbol: "GBP/USD".into(),
        amount: Amount::Quantity { quantity: whole(10) },
        limit_price: None,
        filled_quantity: whole(10),
        average_fill_price: Some(rat(132, 100)),
        status: OrderStatus::Filled,
        type_: OrderType::Market,
        side: OrderSide::Buy,
    };

    assert_eq!(actual_order, expected_order);

    assert_eq!(broker.get_balance("USD"), rat(9, 10));
    assert_eq!(broker.get_buying_power("USD"), rat(9, 10));
    assert_eq!(broker.get_balance("GBP"), whole(10));
    assert_eq!(broker.get_buying_power("GBP"), whole(10));
}

#[test]
fn get_market_sell_order() {
    let mut broker = SimulatedBrokerBuilder::new("USD").build();

    broker.set_notional_per_unit(pair("GBP/USD"), rat(131, 100)).unwrap();

    broker.update_balance("GBP", whole(11)).unwrap();
    broker.update_buying_power("GBP", whole(11)).unwrap();

    let order_request = OrderRequest::create_market_sell(
        pair("GBP/USD"),
        Amount::Quantity { quantity: whole(10) },
    );

    let order_id = broker.place_order(order_request).unwrap();

    let actual_order = broker.get_order(&order_id).unwrap();

    let expected_order = Order {
        order_id,
        asset_symbol: "GBP/USD".into(),
        amount: Amount::Quantity { quantity: whole(10) },
        limit_price: None,
        filled_quantity: whole(10),
        average_fill_price: Some(rat(131, 100)),
        status: OrderStatus::Filled,
        type_: OrderType::Market,
        side: OrderSide::Sell,
    };

    assert_eq!(actual_order, expected_order);

    assert_eq!(broker.get_balance("USD"), rat(131, 10));
    assert_eq!(broker.get_buying_power("USD"), rat(131, 10));
    assert_eq!(broker.get_balance("GBP"), whole(1));
    assert_eq!(broker.get_buying_power("GBP"), whole(1));
}

#[test]
fn get_updated_limit_buy_order() {
    let mut broker = SimulatedBrokerBuilder::new("USD").set_balance(rat(141, 10)).build();

    broker.set_notional_per_unit(pair("GBP/USD"), rat(131, 100)).unwrap();

    let order_request = OrderRequest::create_limit_buy(
        pair("GBP/USD"),
        Amount::Quantity { quantity: whole(10) },
        rat(13, 10),
    );

    let order_id = broker.place_order(order_request).unwrap();

    let order = broker.get_order(&order_id).unwrap();
    assert_eq!(
        order,
        Order {
            order_id: order_id.clone(),
            asset_symbol: "GBP/USD".into(),
            amount: Amount::Quantity { quantity: whole(10) },
            limit_price: Some(rat(13, 10)),
            filled_quantity: whole(0),
            average_fill_price: None,
            status: OrderStatus::New,
            type_: OrderType::Limit,
            side: OrderSide::Buy,
        }
    );

    assert_eq!(broker.get_balance("USD"), rat(141, 10));
    assert_eq!(broker.get_buying_power("USD"), rat(11, 10));
    assert_eq!(broker.get_balance("GBP"), whole(0));
    assert_eq!(broker.get_buying_power("GBP"), whole(0));

    broker.set_notional_per_unit(pair("GBP/USD"), rat(129, 100)).unwrap();

    let order = broker.get_order(&order_id).unwrap();
    assert_eq!(
        order,
        Order {
            order_id,
            asset_symbol: "GBP/USD".into(),
            amount: Amount::Quantity { quantity: whole(10) },
            limit_price: Some(rat(13, 10)),
            filled_quantity: whole(10),
            average_fill_price: Some(rat(129, 100)),
            status: OrderStatus::Filled,
            type_: OrderType::Limit,
            side: OrderSide::Buy,
        }
    );

    assert_eq!(broker.get_balance("USD"), rat(12, 10));
    assert_eq!(broker.get_buying_power("USD"), rat(12, 10));
    assert_eq!(broker.get_balance("GBP"), whole(10));
    assert_eq!(broker.get_buying_power("GBP"), whole(10));
}

#[test]
fn get_updated_limit_sell_order() {
    let mut broker = SimulatedBrokerBuilder::new("USD").build();

    broker.set_notional_per_unit(pair("GBP/USD"), rat(131, 100)).unwrap();

    broker.update_balance("GBP", whole(12)).unwrap();
    broker.update_buying_power("GBP", whole(12)).unwrap();

    let order_request = OrderRequest::create_limit_sell(
        pair("GBP/USD"),
        Amount::Quantity { quantity: whole(10) },
        rat(132, 100),
    );

    let order_id = broker.place_order(order_request).unwrap();

    let order = broker.get_order(&order_id).unwrap();
    assert_eq!(
        order,
        Order {
            order_id: order_id.clone(),
            asset_symbol: "GBP/USD".into(),
            amount: Amount::Quantity { quantity: whole(10) },
            limit_price: Some(rat(132, 100)),
            filled_quantity: whole(0),
            average_fill_price: None,
            status: OrderStatus::New,
            type_: OrderType::Limit,
            side: OrderSide::Sell,
        }
    );

    assert_eq!(broker.get_balance("USD"), whole(0));
    assert_eq!(broker.get_buying_power("USD"), whole(0));
    assert_eq!(broker.get_balance("GBP"), whole(12));
    assert_eq!(broker.get_buying_power("GBP"), whole(2));

    broker.set_notional_per_unit(pair("GBP/USD"), rat(133, 100)).unwrap();

    let order = broker.get_order(&order_id).unwrap();
    assert_eq!(
        order,
        Order {
            order_id,
            asset_symbol: "GBP/USD".into(),
            amount: Amount::Quantity { quantity: whole(10) },
            limit_price: Some(rat(132, 100)),
            filled_quantity: whole(10),
            average_fill_price: Some(rat(133, 100)),
            status: OrderStatus::Filled,
            type_: OrderType::Limit,
            side: OrderSide::Sell,
        }
    );

    assert_eq!(broker.get_balance("USD"), rat(133, 10));
    assert_eq!(broker.get_buying_power("USD"), rat(133, 10));
    assert_eq!(broker.get_balance("GBP"), whole(2));
    assert_eq!(broker.get_buying_power("GBP"), whole(2));
}

#[test]
fn get_filled_limit_buy_order() {
    let mut broker = SimulatedBrokerBuilder::new("USD").set_balance(rat(141, 10)).build();

    broker.set_notional_per_unit(pair("GBP/USD"), rat(131, 100)).unwrap();

    let order_request = OrderRequest::create_limit_buy(
        pair("GBP/USD"),
        Amount::Quantity { quantity: whole(10) },
        rat(14, 10),
    );

    let order_id = broker.place_order(order_request).unwrap();

    let order = broker.get_order(&order_id).unwrap();
    assert_eq!(
        order,
        Order {
            order_id,
            asset_symbol: "GBP/USD".into(),
            amount: Amount::Quantity { quantity: whole(10) },
            limit_price: Some(rat(14, 10)),
            filled_quantity: whole(10),
            average_fill_price: Some(rat(131, 100)),
            status: OrderStatus::Filled,
            type_: OrderType::Limit,
            side: OrderSide::Buy,
        }
    );

    assert_eq!(broker.get_balance("USD"), whole(1));
    assert_eq!(broker.get_buying_power("USD"), whole(1));
    assert_eq!(broker.get_balance("GBP"), whole(10));
    assert_eq!(broker.get_buying_power("GBP"), whole(10));
}

#[test]
fn get_filled_limit_sell_order() {
    let mut broker = SimulatedBrokerBuilder::new("USD").build();

    broker.set_notional_per_unit(pair("GBP/USD"), rat(131, 100)).unwrap();

    broker.update_balance("GBP", rat(105, 10)).unwrap();
    broker.update_buying_power("GBP", rat(105, 10)).unwrap();

    let order_request = OrderRequest::create_limit_sell(
        pair("GBP/USD"),
        Amount::Quantity { quantity: whole(10) },
        rat(125, 100),
    );

    let order_id = broker.place_order(order_request).unwrap();

    let order = broker.get_order(&order_id).unwrap();
    assert_eq!(
        order,
        Order {
            order_id,
            asset_symbol: "GBP/USD".into(),
            amount: Amount::Quantity { quantity: whole(10) },
            limit_price: Some(rat(125, 100)),
            filled_quantity: whole(10),
            average_fill_price: Some(rat(131, 100)),
            status: OrderStatus::Filled,
            type_: OrderType::Limit,
            side: OrderSide::Sell,
        }
    );

    assert_eq!(broker.get_balance("USD"), rat(131, 10));
    assert_eq!(broker.get_buying_power("USD"), rat(131, 10));
    assert_eq!(broker.get_balance("GBP"), rat(5, 10));
    assert_eq!(broker.get_buying_power("GBP"), rat(5, 10));
}

#[test]
fn broker_set_notional_per_unit_invalid_notional_asset() {
    let mut broker = SimulatedBrokerBuilder::new("USD").set_balance(rat(141, 10)).build();

    let err = broker.set_notional_per_unit(pair("GBP/USDT"), rat(131, 100)).unwrap_err();

    assert_eq!(err.message(), "USDT is not a valid notional asset");
}

#[test]
fn broker_set_notional_per_unit_inverted_notional_asset() {
    let mut broker = SimulatedBrokerBuilder::new("USD").set_balance(rat(141, 10)).build();

    let err = broker.set_notional_per_unit(pair("USD/GBP"), rat(131, 100)).unwrap_err();

    assert_eq!(err.message(), "GBP is not a valid notional asset");
}

#[test]
fn broker_new_without_currency() {
    let notional_assets = vec![String::from("BTC")];
    let err = SimulatedBroker::new("USD", notional_assets, Ledger::new()).unwrap_err();
    assert_eq!(err.message(), "Missing currency notional asset USD");
}

#[test]
fn broker_build_no_balance() {
    let broker = SimulatedBrokerBuilder::new("USD").build();
    assert_eq!(broker.get_balance("USD"), whole(0));
    assert_eq!(broker.get_buying_power("USD"), whole(0));
}

#[test]
fn broker_build_negative_balance() {
    let broker = SimulatedBrokerBuilder::new("USD").set_balance(whole(-10)).build();
    assert_eq!(broker.get_balance("USD"), whole(-10));
    assert_eq!(broker.get_buying_power("USD"), whole(-10));
}

#[test]
fn broker_build_with_notional_assets() {
    let broker = SimulatedBrokerBuilder::new("USD")
        .set_balance(rat(141, 10))
        .add_notional_asset("BTC", None)
        .add_notional_asset("USDT", Some(whole(-10)))
        .build();

    assert_eq!(broker.get_balance(&broker.get_currency()), rat(141, 10));
    assert_eq!(broker.get_buying_power(&broker.get_currency()), rat(141, 10));
    assert_eq!(broker.get_balance("USD"), rat(141, 10));
    assert_eq!(broker.get_buying_power("USD"), rat(141, 10));
    assert_eq!(broker.get_balance("USDT"), whole(-10));
    assert_eq!(broker.get_buying_power("USDT"), whole(-10));
    assert_eq!(broker.get_balance("BTC"), whole(0));
    assert_eq!(broker.get_buying_power("BTC"), whole(0));
}

#[test]
fn broker_get_order_based_on_quantity_place_order() {
    let mut broker = SimulatedBrokerBuilder::new("USD").set_balance(rat(141, 10)).build();
    broker.set_notional_per_unit(pair("GBP/USD"), rat(131, 100)).unwrap();

    let order_id = broker
        .place_order(OrderRequest::create_market_buy(
            pair("GBP/USD"),
            Amount::Quantity { quantity: whole(10) },
        ))
        .unwrap();

    let order = broker.get_order(&order_id).unwrap();
    assert_eq!(order.filled_quantity, whole(10));
    assert_eq!(order.average_fill_price, Some(rat(131, 100)));
    assert_eq!(order.status, OrderStatus::Filled);
    // the notional settled is quantity times price: 13.1 USD
    assert_eq!(broker.get_balance("USD"), whole(1));
    assert_eq!(broker.get_balance("GBP"), whole(10));
}

#[test]
fn broker_get_order_based_on_notional_place_order() {
    let mut broker = SimulatedBrokerBuilder::new("USD").set_balance(rat(141, 10)).build();
    broker.set_notional_per_unit(pair("GBP/USD"), rat(131, 100)).unwrap();

    let order_id = broker
        .place_order(OrderRequest::create_market_buy(
            pair("GBP/USD"),
            Amount::Notional { notional: rat(655, 100) },
        ))
        .unwrap();

    let order = broker.get_order(&order_id).unwrap();
    assert_eq!(order.filled_quantity, whole(5));
    assert_eq!(order.average_fill_price, Some(rat(131, 100)));
    assert_eq!(order.status, OrderStatus::Filled);
    // the notional settled is exactly the 6.55 USD requested
    assert_eq!(broker.get_balance("USD"), rat(755, 100));
    assert_eq!(broker.get_balance("GBP"), whole(5));
}

#[test]
fn uuid_order_id_has_hyphenated_form() {
    let mut broker = SimulatedBrokerBuilder::new("USD").set_balance(rat(141, 10)).build();
    broker.set_notional_per_unit(pair("GBP/USD"), rat(131, 100)).unwrap();
    let order_id = broker
        .place_order(OrderRequest::create_market_buy(
            pair("GBP/USD"),
            Amount::Quantity { quantity: whole(1) },
        ))
        .unwrap();
    assert_eq!(order_id.len(), 36);
    assert_ne!(order_id, "");
}

#[test]
fn notional_amount_buys_exact_fraction() {
    let mut broker = SimulatedBrokerBuilder::new("USD").set_balance(whole(1000)).build();
    broker.set_notional_per_unit(pair("TEN/USD"), whole(10)).unwrap();
    let order_id = broker
        .place_order(OrderRequest::create_market_buy(
            pair("TEN/USD"),
            Amount::Notional { notional: whole(15) },
        ))
        .unwrap();
    let order = broker.get_order(&order_id).unwrap();
    assert_eq!(order.filled_quantity, rat(3, 2));
    assert_eq!(order.average_fill_price, Some(whole(10)));
    assert_eq!(broker.get_balance("USD"), whole(985));
    assert_eq!(broker.get_balance("TEN"), rat(15, 10));
}

#[test]
fn zero_price_notional_order_is_rejected() {
    let mut broker = SimulatedBrokerBuilder::new("USD").set_balance(whole(1000)).build();
    broker.set_notional_per_unit(pair("GBP/USD"), whole(0)).unwrap();
    let err = broker
        .place_order(OrderRequest::create_market_buy(
            pair("GBP/USD"),
            Amount::Notional { notional: whole(10) },
        ))
        .unwrap_err();
    assert_eq!(err.message(), "Amount does not fit the supported numeric range");
}

#[test]
fn irrelevant_price_updates_keep_order_new() {
    let mut broker = SimulatedBrokerBuilder::new("USD").set_balance(whole(100)).build();
    broker.set_notional_per_unit(pair("GBP/USD"), rat(131, 100)).unwrap();
    let order_id = broker
        .place_order(OrderRequest::create_limit_buy(
            pair("GBP/USD"),
            Amount::Quantity { quantity: whole(10) },
            rat(13, 10),
        ))
        .unwrap();
    for _ in 0..5 {
        broker.set_notional_per_unit(pair("GBP/USD"), rat(131, 100)).unwrap();
        assert_eq!(broker.get_order(&order_id).unwrap().status, OrderStatus::New);
    }
    broker.set_notional_per_unit(pair("GBP/USD"), rat(135, 100)).unwrap();
    assert_eq!(broker.get_order(&order_id).unwrap().status, OrderStatus::New);
    assert_eq!(broker.get_balance("USD"), whole(100));
    assert_eq!(broker.get_buying_power("USD"), whole(87));
}

#[test]
fn limit_buy_at_exact_limit_price_fills() {
    let mut broker = SimulatedBrokerBuilder::new("USD").set_balance(whole(100)).build();
    broker.set_notional_per_unit(pair("GBP/USD"), rat(13, 10)).unwrap();
    let order_id = broker
        .place_order(OrderRequest::create_limit_buy(
            pair("GBP/USD"),
            Amount::Quantity { quantity: whole(10) },
            rat(13, 10),
        ))
        .unwrap();
    let order = broker.get_order(&order_id).unwrap();
    assert_eq!(order.status, OrderStatus::Filled);
    assert_eq!(order.average_fill_price, Some(rat(13, 10)));
}

#[test]
fn get_orders_returns_every_placed_order() {
    let mut broker = SimulatedBrokerBuilder::new("USD").set_balance(whole(100)).build();
    broker.set_notional_per_unit(pair("GBP/USD"), whole(1)).unwrap();
    assert_eq!(broker.get_orders().len(), 0);
    broker
        .place_order(OrderRequest::create_market_buy(
            pair("GBP/USD"),
            Amount::Quantity { quantity: whole(3) },
        ))
        .unwrap();
    broker
        .place_order(OrderRequest::create_market_sell(
            pair("GBP/USD"),
            Amount::Quantity { quantity: whole(1) },
        ))
        .unwrap();
    assert_eq!(broker.get_orders().len(), 2);
}

#[test]
fn one_price_update_fills_several_pending_orders() {
    let mut broker = SimulatedBrokerBuilder::new("USD").set_balance(whole(100)).build();
    broker.set_notional_per_unit(pair("GBP/USD"), rat(15, 10)).unwrap();
    let first = broker
        .place_order(OrderRequest::create_limit_buy(
            pair("GBP/USD"),
            Amount::Quantity { quantity: whole(10) },
            rat(12, 10),
        ))
        .unwrap();
    let second = broker
        .place_order(OrderRequest::create_limit_buy(
            pair("GBP/USD"),
            Amount::Quantity { quantity: whole(10) },
            rat(12, 10),
        ))
        .unwrap();
    assert_eq!(broker.get_buying_power("USD"), whole(76));

    broker.set_notional_per_unit(pair("GBP/USD"), rat(11, 10)).unwrap();

    for id in [&first, &second] {
        let order = broker.get_order(id).unwrap();
        assert_eq!(order.status, OrderStatus::Filled);
        assert_eq!(order.filled_quantity, whole(10));
        assert_eq!(order.average_fill_price, Some(rat(11, 10)));
    }
    assert_eq!(broker.get_balance("USD"), whole(78));
    assert_eq!(broker.get_balance("GBP"), whole(20));
    assert_eq!(broker.get_buying_power("USD"), whole(78));
    assert_eq!(broker.get_buying_power("GBP"), whole(20));
}

#[test]
fn get_order_unknown_id_fails() {
    let broker = SimulatedBrokerBuilder::new("USD").build();
    let err = broker.get_order("123").unwrap_err();
    assert_eq!(err.message(), "Order with id 123 doesn't exist");
}

#[test]
fn get_notional_per_unit_returns_stored_price() {
    let mut broker = SimulatedBrokerBuilder::new("USD").build();
    broker.set_notional_per_unit(pair("GBP/USD"), rat(131, 100)).unwrap();
    assert_eq!(broker.get_notional_per_unit(&pair("GBP/USD")).unwrap(), rat(131, 100));
    let err = broker.get_notional_per_unit(&pair("AAPL/USD")).unwrap_err();
    assert_eq!(err.message(), "AAPL/USD does not have notional per unit");
}
