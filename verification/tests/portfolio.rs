use matrix_quant::decimal::Dec;
use matrix_quant::portfolio::{
    execute_trade, margin_kind, market_entry, order_size, trade_message, Decision, Funds,
    OrderAsk, PortfolioManager, SignalEvent, LEVERAGE,
};
use matrix_quant::strategy::ControlMessage;

const SECOND: u64 = 1_000_000_000;

fn d(s: &str) -> Dec {
    Dec::read(s).unwrap()
}

fn signal(symbol: &str, strength: &str) -> SignalEvent {
    SignalEvent {
        symbol: symbol.into(),
        side: "BUY".into(),
        strength: strength.into(),
        price: d("10"),
    }
}

fn funds(wallet: &str, available: &str) -> Funds {
    let text = format!(
        "{{\"totalWalletBalance\":\"{}\",\"availableBalance\":\"{}\"}}",
        wallet, available
    );
    Funds::read(&text).unwrap()
}

#[test]
fn funds_are_read() {
    assert!(Funds::read("x").is_none());
    assert!(Funds::read("{}").is_none());
    assert!(Funds::read(r#"{"totalWalletBalance":"0"}"#).is_none());
    let f = Funds::read(r#"{"totalWalletBalance":"12.5"}"#).unwrap();
    assert_eq!((f.wallet.text(), f.available.text()), ("12.5".into(), "0".into()));
}

#[test]
fn the_margin_is_never_more_than_what_is_free() {
    assert!(funds("100", "50").usable_margin().unwrap().equals(d("30")));
    assert!(funds("100", "30").usable_margin().unwrap().equals(d("30")));
    assert!(funds("100", "20").usable_margin().unwrap().equals(d("19")));
    assert!(funds("100", "0.0000000000000000000000000001")
        .usable_margin()
        .unwrap()
        .equals(d("0.0000000000000000000000000001")));
}

#[test]
fn signals_are_judged() {
    let mut p = PortfolioManager::new();
    let held = r#"[{"symbol":"A","positionAmt":"1"},{"symbol":"B","positionAmt":"0"}]"#;
    let f = funds("100", "100");
    assert!(matches!(
        p.handle_signal(&signal("A", "S"), f, held, None, 0),
        Decision::AlreadyHeld
    ));
    assert!(matches!(
        p.handle_signal(&signal("B", "S"), f, held, None, 0),
        Decision::Full { held: 1, limit: 1 }
    ));
    assert!(matches!(
        p.handle_signal(&signal("B", "S"), f, held, Some("junk"), 0),
        Decision::Full { held: 1, limit: 1 }
    ));
    match p.handle_signal(&signal("B", "S"), f, held, Some("2"), 5) {
        Decision::Trade { notional } => assert!(notional.equals(d("300"))),
        _ => panic!("no trade"),
    }
    assert_eq!(p.active_symbols, vec!["A", "B"]);
    assert_eq!(p.last_new_position_time, Some(5));
    assert!(matches!(
        p.handle_signal(&signal("C", "S"), f, held, Some("9"), 4 + 2 * SECOND),
        Decision::TooSoon
    ));
    assert!(matches!(
        p.handle_signal(&signal("C", "S"), funds("100", "5"), held, Some("9"), 5 + 2 * SECOND),
        Decision::TooLittle
    ));
    match p.handle_signal(&signal("A", "DCA"), f, held, None, 6) {
        Decision::Trade { .. } => assert_eq!(p.active_symbols, vec!["A"]),
        _ => panic!("no trade"),
    }
    let far = funds("79228162514264337593543950335", "79228162514264337593543950335");
    assert!(matches!(
        p.handle_signal(&signal("C", "S"), far, "[]", None, 100 * SECOND),
        Decision::OutOfRange
    ));
}

#[test]
fn orders_go_in_whole_steps() {
    assert_eq!(order_size(d("100"), d("7"), Some(d("0.1"))).unwrap().text(), "14.2");
    assert!(order_size(d("100"), d("8"), None).unwrap().equals(d("12.5")));
    assert!(order_size(d("100"), d("8"), Some(d("0"))).unwrap().equals(d("12.5")));
    assert!(order_size(d("100"), d("0"), None).is_none());
}

#[test]
fn fills_are_booked() {
    let f = execute_trade("BUY", d("2"), d("0"), d("10"));
    assert_eq!((f.trade_qty.text(), f.price.text()), ("2".into(), "10".into()));
    let f = execute_trade("SELL", d("2"), d("11"), d("10"));
    assert_eq!((f.trade_qty.text(), f.price.text()), ("-2".into(), "11".into()));
    assert_eq!(f.value.unwrap().text(), "22");
}

#[test]
fn a_signal_is_followed_at_the_market() {
    assert_eq!((LEVERAGE, margin_kind()), (10, "ISOLATED"));
    let expected =
        OrderAsk::Market { side: "SELL".into(), qty: "1.5".into(), reduce_only: false };
    assert_eq!(market_entry("SELL", d("1.500")), expected);
}

#[test]
fn a_strategy_hears_of_its_trade() {
    let fill = execute_trade("SELL", d("2"), d("7.5"), d("7"));
    if let ControlMessage::TradeExecuted { trade_qty, fill_price } = trade_message(fill) {
        assert!(trade_qty.equals(d("-2")) && fill_price.equals(d("7.5")));
    } else {
        panic!("another message");
    }
}
