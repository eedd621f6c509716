use matrix_quant::decimal::{zero, Dec};
use matrix_quant::ml_engine::MLEngine;
use matrix_quant::models::AggTradeUpdate;
use matrix_quant::orderbook::OrderBookManager;
use matrix_quant::side::Side;
use matrix_quant::strategy::{
    book_imbalance, book_trade, stop_price, trade_history_key, Breakout, ControlMessage, ControlReply,
    Entry, Figures, Market, PositionManager, Scan, StrategyEngine, Strength, SyncReply,
};

const SECOND: u64 = 1_000_000_000;

fn d(s: &str) -> Dec {
    Dec::read(s).unwrap()
}

fn book(bids: &[(&str, &str)], asks: &[(&str, &str)]) -> OrderBookManager {
    let mut m = OrderBookManager::new("BTCUSDT");
    let b: Vec<[String; 2]> = bids.iter().map(|(p, q)| [p.to_string(), q.to_string()]).collect();
    let a: Vec<[String; 2]> = asks.iter().map(|(p, q)| [p.to_string(), q.to_string()]).collect();
    m.apply_update(&b, &a);
    m
}

fn engine() -> StrategyEngine {
    StrategyEngine::new("BTCUSDT", None)
}

fn figures(amt: &str, entry: &str, high: &str, low: &str) -> Figures {
    Figures { amt: d(amt), entry: d(entry), high: d(high), low: d(low) }
}

fn texts(f: Figures) -> Vec<String> {
    vec![f.amt.text(), f.entry.text(), f.high.text(), f.low.text()]
}

#[test]
fn a_new_engine_has_its_settings() {
    let e = engine();
    assert_eq!(e.position.symbol, "BTCUSDT");
    assert!(e.position.is_isolated && !e.paused && e.allow_short);
    assert_eq!(e.position.lowest_price_since_entry.text(), "999999999");
    assert_eq!(e.breakout_window, 3000);
    assert_eq!(e.initial_sl_pct.text(), "2.5");
    assert_eq!(e.activation_pct.text(), "3.0");
    assert_eq!(e.trailing_sl_pct.text(), "1.5");
    assert_eq!(e.round_trip_fee_pct.text(), "0.1");
    assert_eq!(e.auto_margin_usdt.text(), "50.0");
    assert_eq!(e.auto_leverage, 10);
    let stored = PositionManager::empty("X");
    assert_eq!(StrategyEngine::new("Y", Some(stored)).position.symbol, "X");
    assert_eq!(PositionManager::key("BTCUSDT"), "BTCUSDT_state");
    assert_eq!(trade_history_key(2025, 3, 9), "trade_history_2025-03-09");
}

#[test]
fn trades_are_booked() {
    let flat = figures("0", "0", "0", "999999999");
    assert_eq!(texts(book_trade(flat, d("2"), d("100")).unwrap()), vec!["2", "100", "100", "100"]);
    let long = figures("2", "100", "120", "90");
    let more = book_trade(long, d("2"), d("110")).unwrap();
    assert_eq!(texts(more), vec!["4", "105", "105", "105"]);
    let less = book_trade(long, d("-0.5"), d("130")).unwrap();
    assert_eq!(texts(less), vec!["1.5", "100", "120", "90"]);
    let turned = book_trade(long, d("-5"), d("130")).unwrap();
    assert_eq!(texts(turned), vec!["-3", "130", "130", "130"]);
    let gone = book_trade(long, d("-2.0"), d("130")).unwrap();
    assert_eq!(texts(gone), vec!["0", "100", "120", "90"]);
    assert!(book_trade(long, d("79228162514264337593543950335"), d("1")).is_none());
}

#[test]
fn a_reported_position_is_watched_from_the_present_price() {
    let m = book(&[("101", "1")], &[]);
    let mut e = engine();
    e.position.highest_price_since_entry = d("200");
    e.position.lowest_price_since_entry = d("90");
    e.handle_control_message(
        ControlMessage::ForceUpdatePosition { amt: d("1"), entry: d("100") },
        &m.book,
    );
    assert_eq!(texts(e.position.figures()), vec!["1", "100", "101", "101"]);
    let empty = book(&[], &[]);
    e.handle_control_message(
        ControlMessage::ForceUpdatePosition { amt: d("2"), entry: d("50") },
        &empty.book,
    );
    assert_eq!(texts(e.position.figures()), vec!["2", "50", "50", "50"]);
}

#[test]
fn messages_change_the_position() {
    let m = book(&[("101", "1")], &[("102", "1")]);
    let mut e = engine();
    let r = e.handle_control_message(
        ControlMessage::TradeExecuted { trade_qty: d("1"), fill_price: d("100") },
        &m.book,
    );
    assert!(matches!(r, ControlReply::Save));
    assert_eq!(e.position.entry_price.text(), "100");
    match e.handle_control_message(ControlMessage::ClosePosition, &m.book) {
        ControlReply::Close { side, qty } => assert_eq!((side, qty.text()), (Side::Sell, "1".into())),
        _ => panic!("not closing"),
    }
    e.close_answered(false);
    assert!(!e.position.position_amt.is_zero());
    e.close_answered(true);
    assert!(e.position.position_amt.is_zero());
    assert!(matches!(
        e.handle_control_message(ControlMessage::ClosePosition, &m.book),
        ControlReply::NothingToClose
    ));
    assert!(matches!(
        e.handle_control_message(ControlMessage::SyncPosition, &m.book),
        ControlReply::ReadPositions
    ));
    let r = e.handle_control_message(
        ControlMessage::ForceUpdatePosition { amt: d("-3"), entry: d("99") },
        &m.book,
    );
    assert!(matches!(r, ControlReply::Save));
    assert_eq!(texts(e.position.figures()), vec!["-3", "99", "101", "101"]);
    let r = e.handle_control_message(
        ControlMessage::ForceUpdatePosition { amt: d("-3.0"), entry: d("50") },
        &m.book,
    );
    assert!(matches!(r, ControlReply::Quiet));
    assert_eq!(e.position.entry_price.text(), "99");
    e.handle_control_message(
        ControlMessage::ForceUpdatePosition { amt: zero(), entry: d("50") },
        &m.book,
    );
    assert!(e.position.position_amt.is_zero());
    e.handle_control_message(ControlMessage::ClearPosition, &m.book);
    assert!(e.position.position_amt.is_zero());
    let r = e.handle_control_message(
        ControlMessage::TradeExecuted {
            trade_qty: d("79228162514264337593543950335"),
            fill_price: d("79228162514264337593543950335"),
        },
        &m.book,
    );
    assert!(matches!(r, ControlReply::OutOfRange));
    assert!(e.position.position_amt.is_zero());
}

#[test]
fn a_position_is_taken_over() {
    let m = book(&[("105", "1")], &[("106", "1")]);
    let mut e = engine();
    let text = r#"[{"symbol":"ETHUSDT","positionAmt":"9"},
        {"symbol":"BTCUSDT","positionAmt":"2","entryPrice":"100"}]"#;
    match e.sync_position(text, &m.book) {
        SyncReply::TakenOver { amt, entry, price } => {
            assert_eq!(
                vec![amt.text(), entry.text(), price.text()],
                vec!["2", "100", "105"]
            );
        }
        _ => panic!("not taken over"),
    }
    assert_eq!(texts(e.position.figures()), vec!["2", "100", "105", "100"]);
    assert!(matches!(
        e.sync_position(r#"[{"symbol":"BTCUSDT","positionAmt":"0"}]"#, &m.book),
        SyncReply::Flat
    ));
    assert!(e.position.position_amt.is_zero());
    assert!(matches!(e.sync_position("[]", &m.book), SyncReply::NotFound));
}

#[test]
fn trades_feed_the_flows() {
    let mut e = engine();
    let buy = AggTradeUpdate { price: "10".into(), qty: "3".into(), is_buyer_maker: false };
    let sell = AggTradeUpdate { price: "10".into(), qty: "2".into(), is_buyer_maker: true };
    let junk = AggTradeUpdate { price: "x".into(), qty: "2".into(), is_buyer_maker: true };
    assert!(e.handle_trade(&buy) && e.handle_trade(&sell) && e.handle_trade(&junk));
    let f = e.flows();
    assert_eq!(
        vec![f.fast_buy.text(), f.fast_sell.text(), f.slow_buy.text(), f.slow_sell.text()],
        vec!["30", "20", "30", "20"]
    );
    let most = "79228162514264337593543950335";
    let huge = AggTradeUpdate { price: most.into(), qty: most.into(), is_buyer_maker: true };
    assert!(!e.handle_trade(&huge));
    assert_eq!(e.fast_sell_flow.text(), "20");
}

#[test]
fn the_imbalance_weighs_the_inner_levels_more() {
    let m = book(&[("99", "1"), ("98", "1")], &[("101", "1")]);
    let obi = book_imbalance(&m.book).unwrap();
    assert_eq!(obi.text(), "0.2857142857142857142857142857");
    assert_eq!(book_imbalance(&OrderBookManager::new("X").book).unwrap().text(), "0");
}

#[test]
fn the_window_fills_before_anything_is_judged() {
    let mut e = engine();
    e.breakout_window = 2;
    let empty = OrderBookManager::new("BTCUSDT");
    assert!(matches!(e.evaluate_market(&empty.book, None, 1), Market::NoBook));
    assert_eq!(e.last_tick_time, None);
    let m = book(&[("99", "1")], &[("101", "1")]);
    assert!(matches!(e.evaluate_market(&m.book, None, 1), Market::Warming));
    assert!(matches!(e.evaluate_market(&m.book, None, 2), Market::Warming));
    assert_eq!((e.mid_price_history.len(), e.tick_counter), (2, 0));
    match e.evaluate_market(&m.book, None, 3) {
        Market::Flat { scan, fetch_funding } => {
            assert!(fetch_funding);
            assert_eq!((scan.high.text(), scan.low.text()), ("100".into(), "100".into()));
        }
        _ => panic!("not flat"),
    }
    assert_eq!((e.mid_price_history.len(), e.tick_counter), (2, 1));
    e.funding_read(d("0.0001"), 4);
    match e.evaluate_market(&m.book, None, 4 + 300 * SECOND) {
        Market::Flat { fetch_funding, .. } => assert!(!fetch_funding),
        _ => panic!("not flat"),
    }
    match e.evaluate_market(&m.book, None, 5 + 300 * SECOND) {
        Market::Flat { fetch_funding, .. } => assert!(fetch_funding),
        _ => panic!("not flat"),
    }
}

#[test]
fn flows_decay() {
    let mut e = engine();
    e.fast_buy_flow = d("100");
    e.slow_sell_flow = d("100");
    assert_eq!(e.decay_due(5), None);
    let m = book(&[("99", "1")], &[("101", "1")]);
    e.evaluate_market(&m.book, Some((d("0.5"), d("0.9"))), 10);
    assert_eq!((e.fast_buy_flow.text(), e.slow_sell_flow.text()), ("50.0".into(), "90.0".into()));
    assert_eq!((e.decay_due(10), e.decay_due(25)), (None, Some(15)));
}

fn scan(bid: &str, ask: &str, obi: &str) -> Scan {
    Scan { bid: d(bid), ask: d(ask), obi: d(obi), high: d("100"), low: d("90") }
}

#[test]
fn breakouts_have_a_strength() {
    let mut e = engine();
    e.fast_buy_flow = d("20000");
    e.fast_sell_flow = d("5000");
    e.slow_buy_flow = d("40000");
    e.slow_sell_flow = d("20000");
    match e.find_entry(scan("101", "102", "0.4")) {
        Entry::Broken(b) => {
            assert_eq!((b.side, b.strength), (Side::Buy, Strength::S));
            assert_eq!((b.price.text(), b.seen.text()), ("102".into(), "101".into()));
        }
        _ => panic!("no entry"),
    }
    e.slow_buy_flow = d("30000");
    match e.find_entry(scan("101", "102", "0.4")) {
        Entry::Broken(b) => assert_eq!(b.strength, Strength::A),
        _ => panic!("no entry"),
    }
    match e.find_entry(scan("101", "102", "0.3")) {
        Entry::Broken(b) => assert_eq!(b.strength, Strength::B),
        _ => panic!("no entry"),
    }
    assert!(matches!(e.find_entry(scan("100", "101", "0.4")), Entry::Nothing));
    match e.find_entry(scan("88", "89", "-0.4")) {
        Entry::Broken(b) => {
            assert_eq!((b.side, b.strength), (Side::Sell, Strength::B));
            assert_eq!((b.price.text(), b.seen.text()), ("88".into(), "89".into()));
        }
        _ => panic!("no entry"),
    }
    e.fast_sell_flow = d("79228162514264337593543950335");
    assert!(matches!(e.find_entry(scan("101", "102", "0.4")), Entry::OutOfRange));
}

#[test]
fn a_pause_stops_entries_and_a_switch_stops_short_ones() {
    let m = book(&[("1", "1")], &[("2", "1")]);
    let mut e = engine();
    e.handle_control_message(ControlMessage::PauseTrading, &m.book);
    assert!(matches!(e.find_entry(scan("101", "102", "0.4")), Entry::Nothing));
    e.handle_control_message(ControlMessage::ResumeTrading, &m.book);
    e.handle_control_message(ControlMessage::AllowShorting(false), &m.book);
    assert!(matches!(e.find_entry(scan("101", "102", "0.4")), Entry::Broken(_)));
    assert!(matches!(e.find_entry(scan("88", "89", "-0.4")), Entry::Nothing));
    e.handle_control_message(ControlMessage::AllowShorting(true), &m.book);
    assert!(matches!(e.find_entry(scan("88", "89", "-0.4")), Entry::Broken(_)));
}

#[test]
fn signals_are_made_and_spaced() {
    let mut e = engine();
    e.breakout_window = 0;
    let weak =
        Breakout { side: Side::Buy, strength: Strength::B, price: d("102"), seen: d("101") };
    assert!(e.decide_signal(weak, d("0.75"), 7).is_none());
    assert_eq!(e.last_signal_time, None);
    let s = e.decide_signal(weak, d("0.751"), 7).unwrap();
    assert_eq!((s.symbol.as_str(), s.side.as_str(), s.strength.as_str()), ("BTCUSDT", "BUY", "B"));
    assert_eq!(s.price.text(), "102");
    let strong = Breakout { side: Side::Sell, strength: Strength::S, ..weak };
    assert_eq!(e.decide_signal(strong, d("0"), 8).unwrap().side, "SELL");
    assert_eq!(e.last_signal_time, Some(8));
    let m = book(&[("99", "1")], &[("101", "1")]);
    assert!(matches!(e.evaluate_market(&m.book, None, 7 + 10 * SECOND), Market::Cooling));
    assert!(matches!(e.evaluate_market(&m.book, None, 8 + 10 * SECOND), Market::Flat { .. }));
}

fn holding(amt: &str, entry: &str, high: &str, low: &str) -> StrategyEngine {
    let mut e = engine();
    e.breakout_window = 0;
    let f = figures(amt, entry, high, low);
    e.position.position_amt = f.amt;
    e.position.entry_price = f.entry;
    e.position.highest_price_since_entry = f.high;
    e.position.lowest_price_since_entry = f.low;
    e
}

#[test]
fn a_long_position_ends_at_its_stop() {
    let mut e = holding("2", "100", "100", "100");
    let up = book(&[("104", "1")], &[("105", "1")]);
    assert!(matches!(e.evaluate_market(&up.book, None, 1), Market::Keep { changed: true }));
    assert_eq!(e.position.highest_price_since_entry.text(), "104");
    assert!(matches!(e.evaluate_market(&up.book, None, 2), Market::Keep { changed: false }));
    let at = book(&[("102.44", "1")], &[("105", "1")]);
    match e.evaluate_market(&at.book, None, 3) {
        Market::Exit { report, changed } => {
            assert!(!changed);
            assert_eq!((report.side, report.qty.text()), (Side::Sell, "2".into()));
            assert_eq!(report.gross_pct.text(), "2.4400");
            assert!(report.net_pct.equals(d("2.34")));
            assert!(report.gross_usdt.equals(d("4.88")));
            assert!(report.fee_usdt.equals(d("0.20244")));
            assert!(report.net_usdt.equals(d("4.67756")));
        }
        _ => panic!("not out"),
    }
    assert!(e.exit_answered(false, 4));
    assert!(matches!(e.evaluate_market(&at.book, None, 4 + 4 * SECOND), Market::Wait));
    assert!(!e.exit_answered(false, 4 + 4 * SECOND));
    assert!(matches!(e.evaluate_market(&at.book, None, 4 + 5 * SECOND), Market::Exit { .. }));
    assert!(!e.exit_answered(true, 5 + 5 * SECOND));
    assert!(e.position.position_amt.is_zero());
}

#[test]
fn a_short_position_ends_at_its_stop() {
    let mut e = holding("-2", "100", "100", "100");
    let above = book(&[("102", "1")], &[("102.5", "1")]);
    match e.evaluate_market(&above.book, None, 1) {
        Market::Exit { report, .. } => {
            assert_eq!(report.side, Side::Buy);
            assert!(report.gross_pct.equals(d("-2.5")));
            assert!(report.gross_usdt.equals(d("-5")));
        }
        _ => panic!("not out"),
    }
    let below = book(&[("102", "1")], &[("102.4", "1")]);
    assert!(matches!(e.evaluate_market(&below.book, None, 1), Market::Keep { changed: false }));
    let mut broken = holding("-2", "0", "0", "0");
    assert!(matches!(broken.evaluate_market(&below.book, None, 1), Market::OutOfRange));
}

#[test]
fn a_trailing_exit_is_in_profit() {
    for (long, best) in [(true, "103"), (true, "150"), (false, "97"), (false, "50")] {
        let stop =
            stop_price(long, d(best), d("100"), d("3.0"), d("1.5"), d("2.5")).unwrap();
        if long {
            assert!(stop.above(d("100")));
        } else {
            assert!(stop.below(d("100")));
        }
    }
    let before = stop_price(true, d("102.9"), d("100"), d("3.0"), d("1.5"), d("2.5")).unwrap();
    assert!(before.equals(d("97.5")));
}

#[test]
fn the_model_sees_both_sides_alike() {
    let mut history = std::collections::VecDeque::new();
    for i in 0..11u32 {
        history.push_back(d(&(100 + i).to_string()));
    }
    let up = MLEngine::inputs(d("0.3"), d("5"), d("0"), d("0.01"), "BUY", &history);
    assert!(up.rises && up.against.is_none());
    assert_eq!((up.imbalance.text(), up.funding.text()), ("0.3".into(), "-0.01".into()));
    let (first, last) = up.span.unwrap();
    assert_eq!((first.text(), last.text()), ("100".into(), "110".into()));
    history.pop_front();
    let down = MLEngine::inputs(d("0.3"), d("5"), d("2"), d("0.01"), "SELL", &history);
    assert_eq!((down.imbalance.text(), down.flow.text()), ("-0.3".into(), "2".into()));
    assert_eq!(down.against.unwrap().text(), "5");
    assert!(down.span.is_none());
}

#[test]
fn two_trades_average_in_either_order() {
    let none = figures("0", "777", "1", "1");
    let (a, b) = ((d("1"), d("100")), (d("3"), d("110")));
    for (x, y) in [(a, b), (b, a)] {
        let one = book_trade(none, x.0, x.1).unwrap();
        assert!(one.entry.equals(x.1));
        let both = book_trade(one, y.0, y.1).unwrap();
        assert!(both.amt.equals(d("4")) && both.entry.equals(d("107.5")));
    }
}
