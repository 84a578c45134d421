use exchange_actions::asset::{resolve, SymbolTable};
use exchange_actions::errors::Error;
use exchange_actions::numeric::to_scaled_integer;
use exchange_actions::order::{
    ClientLimit, ClientOrder, ClientOrderRequest, ClientTrigger, Order,
};

fn scaled(value: f64) -> u64 {
    (value * 100_000_000.0).round() as u64
}

fn eth_table() -> SymbolTable {
    let mut table = SymbolTable::new();
    table.insert("ETH".to_string(), 1);
    table
}

fn limit(tif: &str) -> ClientOrder {
    ClientOrder::Limit(ClientLimit { tif: tif.to_string() })
}

fn trigger(px: u64, is_market: bool, tpsl: &str) -> ClientOrder {
    ClientOrder::Trigger(ClientTrigger { trigger_px: px, is_market, tpsl: tpsl.to_string() })
}

fn gtc_order(asset: &str) -> ClientOrderRequest {
    ClientOrderRequest {
        asset: asset.to_string(),
        is_buy: true,
        reduce_only: false,
        limit_px: scaled(1800.5),
        sz: scaled(0.25),
        order_type: limit("Gtc"),
    }
}

#[test]
fn resolve_finds_exactly_the_mapped_index() {
    let mut table = SymbolTable::new();
    table.insert("BTC".to_string(), 0);
    table.insert("ETH".to_string(), 1);
    table.insert("SOL".to_string(), 5);
    assert_eq!(resolve("BTC", &table), Ok(0));
    assert_eq!(resolve("ETH", &table), Ok(1));
    assert_eq!(resolve("SOL", &table), Ok(5));
}

#[test]
fn resolve_fails_for_absent_symbols() {
    let table = eth_table();
    assert_eq!(resolve("BTC", &table), Err(Error::AssetNotFound));
    assert_eq!(resolve("eth", &table), Err(Error::AssetNotFound));
    assert_eq!(resolve("ETH ", &table), Err(Error::AssetNotFound));
    assert_eq!(resolve("", &table), Err(Error::AssetNotFound));
    assert_eq!(resolve("ETH", &SymbolTable::new()), Err(Error::AssetNotFound));
}

#[test]
fn insert_replaces_an_earlier_index() {
    let mut table = eth_table();
    table.insert("ETH".to_string(), 7);
    assert_eq!(resolve("ETH", &table), Ok(7));
}

#[test]
fn limit_rows_of_the_order_type_table() {
    assert_eq!(limit("Alo").get_type(), Ok((1, 0)));
    assert_eq!(limit("Gtc").get_type(), Ok((2, 0)));
    assert_eq!(limit("Ioc").get_type(), Ok((3, 0)));
}

#[test]
fn trigger_rows_of_the_order_type_table() {
    let px = scaled(2000.0);
    assert_eq!(trigger(px, true, "tp").get_type(), Ok((4, px)));
    assert_eq!(trigger(px, false, "tp").get_type(), Ok((5, px)));
    assert_eq!(trigger(px, true, "sl").get_type(), Ok((6, px)));
    assert_eq!(trigger(px, false, "sl").get_type(), Ok((7, px)));
}

#[test]
fn trigger_limit_take_profit_at_2000() {
    let order = trigger(scaled(2000.0), false, "tp");
    assert_eq!(order.get_type(), Ok((5, 200_000_000_000)));
    let px = to_scaled_integer("2000.0").unwrap();
    assert_eq!(trigger(px, false, "tp").get_type(), Ok((5, scaled(2000.0))));
}

#[test]
fn other_order_types_are_not_found() {
    for tif in ["", "gtc", "GTC", "Gtc ", "Fok", "Gt", "Gtcx", "tp"] {
        assert_eq!(limit(tif).get_type(), Err(Error::OrderTypeNotFound));
    }
    for tpsl in ["", "TP", "SL", "tp ", "t", "tpsl", "Gtc"] {
        assert_eq!(trigger(1, true, tpsl).get_type(), Err(Error::OrderTypeNotFound));
        assert_eq!(trigger(1, false, tpsl).get_type(), Err(Error::OrderTypeNotFound));
    }
}

#[test]
fn limit_gtc_order_on_eth_converts_to_wire_form() {
    let wire = gtc_order("ETH").convert(&eth_table()).unwrap();
    assert_eq!(wire.asset, 1);
    assert!(wire.is_buy);
    assert!(!wire.reduce_only);
    assert_eq!(wire.limit_px, "1800.5");
    assert_eq!(wire.sz, "0.25");
    match wire.order_type {
        Order::Limit(l) => assert_eq!(l.tif, "Gtc"),
        Order::Trigger(_) => panic!("a limit order stays a limit order"),
    }
}

#[test]
fn limit_gtc_order_on_eth_gives_hash_tuple() {
    let tuple = gtc_order("ETH").create_hashable_tuple(&eth_table()).unwrap();
    assert_eq!(tuple, (1, true, scaled(1800.5), scaled(0.25), false, 2, 0));
    assert_eq!(tuple, (1, true, 180_050_000_000, 25_000_000, false, 2, 0));
}

#[test]
fn trigger_order_converts_with_canonical_trigger_price() {
    let request = ClientOrderRequest {
        asset: "ETH".to_string(),
        is_buy: false,
        reduce_only: true,
        limit_px: scaled(1999.75),
        sz: scaled(3.0),
        order_type: trigger(scaled(2000.0), false, "tp"),
    };
    let table = eth_table();
    let tuple = request.create_hashable_tuple(&table).unwrap();
    assert_eq!(tuple, (1, false, 199_975_000_000, 300_000_000, true, 5, 200_000_000_000));
    let kept = request.to_wire(&table).unwrap();
    let wire = request.convert(&table).unwrap();
    assert_eq!(wire.asset, 1);
    assert!(!wire.is_buy);
    assert!(wire.reduce_only);
    assert_eq!(wire.limit_px, "1999.75");
    assert_eq!(wire.sz, "3");
    assert_eq!(kept.limit_px, wire.limit_px);
    match wire.order_type {
        Order::Trigger(t) => {
            assert_eq!(t.trigger_px, "2000");
            assert!(!t.is_market);
            assert_eq!(t.tpsl, "tp");
        }
        Order::Limit(_) => panic!("a trigger order stays a trigger order"),
    }
}

#[test]
fn unknown_symbol_fails_conversion_and_tuple() {
    let table = eth_table();
    assert_eq!(gtc_order("BTC").create_hashable_tuple(&table), Err(Error::AssetNotFound));
    assert!(matches!(gtc_order("BTC").convert(&table), Err(Error::AssetNotFound)));
}

#[test]
fn unknown_order_type_fails_tuple_before_symbol() {
    let table = eth_table();
    let mut request = gtc_order("BTC");
    request.order_type = limit("Fok");
    assert_eq!(request.create_hashable_tuple(&table), Err(Error::OrderTypeNotFound));
    let mut request = gtc_order("ETH");
    request.order_type = trigger(5, true, "xx");
    assert_eq!(request.create_hashable_tuple(&table), Err(Error::OrderTypeNotFound));
}

#[test]
fn wire_form_keeps_tags_that_the_table_lacks() {
    let mut request = gtc_order("ETH");
    request.order_type = limit("Fok");
    let wire = request.convert(&eth_table()).unwrap();
    match wire.order_type {
        Order::Limit(l) => assert_eq!(l.tif, "Fok"),
        Order::Trigger(_) => panic!("a limit order stays a limit order"),
    }
}
