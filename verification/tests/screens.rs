use matrix_quant::decimal::Dec;
use matrix_quant::funding::{is_extreme, is_watched, last_rows, longs_pay};
use matrix_quant::gateway::{depth_url, trade_url, Backoff, StreamAction, StreamEvent};
use matrix_quant::grid_scanner::{closing_prices, is_eligible, suits_grid};
use matrix_quant::json::parse_json;
use matrix_quant::manip_radar::{count_wicks, inspect, needs_funding, Flag, Hour};
use matrix_quant::matrix::{
    fallback_symbols, position_line, position_reports, read_stored, require_majors, rotate,
    seconds_to_midnight, top_symbols, Alarm, CircuitBreaker, Major, Mood, Sentiment, Ticker,
};
use matrix_quant::order::sort_places;
use matrix_quant::paper::{
    enter, entry_price, free_slots, funding_fits, is_candidate, is_surging, verdict, Day, PaperExit,
    PaperPos, PaperStats, Rise, Verdict,
};
use matrix_quant::screen::{
    daily_due, day_key, is_coin_usdt, is_cooling, is_plain_usdt, middle, rank_down, read_candles,
    read_rows,
};

fn d(s: &str) -> Dec {
    Dec::read(s).unwrap()
}

fn b(x: f64) -> u64 {
    x.to_bits()
}

#[test]
fn places_are_sorted_and_stay_in_order() {
    let v: Vec<u64> = vec![3, 1, 2, 1];
    assert_eq!(sort_places(&v, false), vec![1, 3, 2, 0]);
    assert_eq!(sort_places(&v, true), vec![0, 2, 1, 3]);
    assert_eq!(rank_down(&vec![b(-1.0), b(2.0), b(0.5)]), vec![1, 2, 0]);
    assert_eq!(middle(&vec![b(5.0), b(1.0), b(3.0)]), b(3.0));
    assert_eq!(middle(&vec![b(5.0), b(1.0), b(3.0), b(4.0)]), b(4.0));
}

#[test]
fn symbols_are_screened() {
    assert!(is_plain_usdt("XAUUSDT") && !is_plain_usdt("BTCUSDT_250627") && !is_plain_usdt("BTCUSD"));
    assert!(!is_plain_usdt("A_USDT"));
    assert!(is_coin_usdt("BTCUSDT") && !is_coin_usdt("XAUUSDT") && !is_coin_usdt("XAGUSDT"));
}

#[test]
fn reports_are_due_once_a_day() {
    assert_eq!(day_key(2025, 1, 2), "2025-01-02");
    assert!(daily_due(20, "", "x") && !daily_due(19, "", "x") && !daily_due(23, "x", "x"));
    assert!(is_cooling(Some(10), 12, 3) && !is_cooling(Some(10), 13, 3) && !is_cooling(None, 0, 3));
    assert!(is_cooling(Some(10), 5, 3) && !is_cooling(Some(10), 10, 0));
}

#[test]
fn candles_and_rows_are_read() {
    let v = read_candles(r#"[[0,"1","2","3","4","5",6,"7"],[0,1]]"#).unwrap();
    assert_eq!(v.len(), 2);
    assert_eq!(
        vec![&v[0].open, &v[0].high, &v[0].low, &v[0].close, &v[0].turnover],
        vec![
            &Some("1".to_string()),
            &Some("2".to_string()),
            &Some("3".to_string()),
            &Some("4".to_string()),
            &Some("7".to_string())
        ]
    );
    assert!(v[1].open.is_none() && v[1].turnover.is_none());
    assert!(read_candles("{}").is_none());
    let r = read_rows(r#"[{"symbol":"A","x":"1","y":2},{"x":"3"}]"#, &["x", "y"]).unwrap();
    assert_eq!((r[0].symbol.as_str(), r[0].cells.clone()), ("A", vec![Some("1".into()), None]));
    assert_eq!((r[1].symbol.as_str(), r[1].cells.clone()), ("", vec![Some("3".into()), None]));
    assert!(read_rows("7", &["x"]).is_none());
}

#[test]
fn waits_double_up_to_a_minute() {
    let mut w = Backoff::new();
    let waits: Vec<u64> = (0..8).map(|_| w.wait()).collect();
    assert_eq!(waits, vec![1, 2, 4, 8, 16, 32, 60, 60]);
    w.connected();
    assert_eq!(w.wait(), 1);
}

#[test]
fn streams_hand_updates_on() {
    let mut w = Backoff::new();
    let waits: Vec<StreamAction> = (0..3).map(|_| w.step(StreamEvent::Ended)).collect();
    assert_eq!(
        waits,
        vec![
            StreamAction::Reconnect { seconds: 1 },
            StreamAction::Reconnect { seconds: 2 },
            StreamAction::Reconnect { seconds: 4 }
        ]
    );
    assert_eq!(w.step(StreamEvent::Update), StreamAction::HandOn);
    assert_eq!(w.step(StreamEvent::Other), StreamAction::Read);
    assert_eq!(w.step(StreamEvent::Ended), StreamAction::Reconnect { seconds: 8 });
    assert_eq!(w.step(StreamEvent::Connected), StreamAction::Read);
    assert_eq!(w.step(StreamEvent::Ended), StreamAction::Reconnect { seconds: 1 });
    assert_eq!(w.step(StreamEvent::ReceiverGone), StreamAction::Stop);
}

#[test]
fn streams_have_addresses() {
    assert_eq!(depth_url(None, "BTCUSDT"), "wss://fstream.binance.com/ws/btcusdt@depth@100ms");
    assert_eq!(trade_url(Some("ws://x"), "EthUSDT"), "ws://x/ethusdt@aggTrade");
}

#[test]
fn paper_positions_end() {
    let mut p = PaperPos::new("A", b(100.0), 5);
    assert_eq!((p.entry, p.peak, p.opened_ms), (b(100.0), b(100.0), 5));
    let r = p.take_bar(b(100.0), b(104.0), b(99.0), b(103.0), b(97.0), 10);
    assert_eq!(r, (PaperExit::No, true));
    assert_eq!(p.peak, b(104.0));
    let r = p.take_bar(b(103.0), b(103.0), b(99.0), b(100.0), b(99.0), 10);
    assert_eq!(r, (PaperExit::Trail { price: b(99.0) }, false));
    let r = p.take_bar(b(98.0), b(103.0), b(90.0), b(100.0), b(99.0), 10);
    assert_eq!(r, (PaperExit::Trail { price: b(98.0) }, false));
    let r = p.take_bar(b(103.0), b(109.0), b(102.0), b(105.0), b(99.0), 1440);
    assert_eq!(r, (PaperExit::Fuse { price: b(105.0) }, false));
    assert_eq!(p.peak, b(104.0));
}

#[test]
fn paper_results_are_tallied() {
    let mut s = PaperStats { total_net: 0, gross_win: 0, gross_loss: 0, trades: 0, wins: 0 };
    s.book(b(3.0), b(3.0), b(3.0), b(99.0));
    s.book(b(-1.0), b(2.0), b(77.0), b(1.0));
    assert_eq!((s.trades, s.wins), (2, 1));
    assert_eq!((s.total_net, s.gross_win, s.gross_loss), (b(2.0), b(3.0), b(1.0)));
    assert_eq!(verdict(29, b(9.0)), Verdict::TooFew);
    assert_eq!(verdict(30, b(1.31)), Verdict::Passed);
    assert_eq!(verdict(30, b(1.3)), Verdict::Failed);
}

#[test]
fn paper_entries_are_screened() {
    let day = |v: f64, last: f64, high: f64, dist: f64, held: bool, cooling: bool| Day {
        turnover: b(v),
        last: b(last),
        high: b(high),
        distance: b(dist),
        held,
        cooling,
    };
    let ok = |sym: &str, v: f64, last: f64, high: f64, dist: f64| {
        is_candidate(sym, day(v, last, high, dist, false, false))
    };
    assert!(ok("AUSDT", 150e6, 1.0, 2.0, -3.0));
    assert!(!ok("AUSDT", 149e6, 1.0, 2.0, -3.0));
    assert!(!ok("AUSDT", 150e6, 0.0, 2.0, -3.0));
    assert!(!ok("AUSDT", 150e6, 1.0, 0.0, -3.0));
    assert!(!ok("AUSDT", 150e6, 1.0, 2.0, -2.9));
    assert!(!ok("XAUUSDT", 150e6, 1.0, 2.0, -3.0));
    assert!(!is_candidate("AUSDT", day(150e6, 1.0, 2.0, -3.0, true, false)));
    assert!(!is_candidate("AUSDT", day(150e6, 1.0, 2.0, -3.0, false, true)));
    let rise = |ret60: f64, ret15: f64, ret5: f64, surge: f64| Rise {
        ret60: b(ret60),
        ret15: b(ret15),
        ret5: b(ret5),
        surge: b(surge),
    };
    assert!(is_surging(rise(3.0, 1.0, 0.5, 6.0)));
    assert!(!is_surging(rise(2.9, 1.0, 0.5, 6.0)));
    assert!(!is_surging(rise(3.0, 0.9, 0.5, 6.0)));
    assert!(!is_surging(rise(3.0, 1.0, 0.4, 6.0)));
    assert!(!is_surging(rise(3.0, 1.0, 0.5, 5.9)));
    let good = day(150e6, 1.0, 2.0, -3.0, false, false);
    let up = rise(3.0, 1.0, 0.5, 6.0);
    let p = enter(1, "AUSDT", good, up, b(30.0), b(1.1), b(1.0), 7).unwrap();
    assert_eq!((p.sym.as_str(), p.entry, p.peak, p.opened_ms), ("AUSDT", b(1.1), b(1.1), 7));
    assert!(enter(2, "AUSDT", good, up, b(30.0), b(1.1), b(1.0), 7).is_none());
    assert!(enter(1, "AUSDT", good, up, b(30.1), b(1.1), b(1.0), 7).is_none());
    assert!(enter(1, "AUSDT", good, rise(0.0, 1.0, 0.5, 6.0), b(1.0), b(1.1), b(1.0), 7).is_none());
    assert!(enter(1, "AUSD", good, up, b(1.0), b(1.1), b(1.0), 7).is_none());
    assert!(funding_fits(b(0.0)) && funding_fits(b(30.0)));
    assert!(!funding_fits(b(-0.1)) && !funding_fits(b(30.1)));
    assert_eq!((entry_price(b(2.0), b(1.0)), entry_price(b(0.0), b(1.0))), (b(2.0), b(1.0)));
    assert_eq!((free_slots(0), free_slots(1), free_slots(2), free_slots(9)), (2, 1, 0, 0));
}

#[test]
fn grid_candidates_are_screened() {
    assert!(is_eligible("AUSDT", b(20e6)) && !is_eligible("AUSDT", b(19e6)));
    assert!(!is_eligible("XAGUSDT", b(20e6)));
    assert!(suits_grid(b(0.14), b(14.9), b(3.1)));
    assert!(!suits_grid(b(0.15), b(14.9), b(3.1)));
    assert!(!suits_grid(b(0.14), b(15.0), b(3.1)));
    assert!(!suits_grid(b(0.14), b(14.9), b(3.0)));
    let v = closing_prices(r#"[[0,1,2,3,"4"],[0],[0,1,2,3,"5"],[0,1,2,3,"6"]]"#).unwrap();
    assert_eq!(v, vec!["4", "5"]);
    assert!(closing_prices("[]").unwrap().is_empty());
    assert!(closing_prices("{}").is_none());
}

#[test]
fn funding_rates_are_watched() {
    assert!(is_watched("XAUUSDT", b(20e6)) && !is_watched("AUSDT", b(1.0)));
    assert!(is_extreme(b(50.0), b(50.0)) && !is_extreme(b(49.9), b(50.0)));
    assert!(longs_pay(b(0.1)) && !longs_pay(b(0.0)) && !longs_pay(b(-0.1)));
    assert_eq!(last_rows(3), vec![2, 1, 0]);
    assert_eq!(last_rows(7), vec![6, 5, 4, 3, 2]);
}

#[test]
fn signs_of_manipulation() {
    let calm = Hour { low: b(1.0), rise: b(1.0), retrace: b(0.0) };
    let pump = Hour { low: b(1.0), rise: b(8.1), retrace: b(0.51) };
    assert!(inspect(calm, 0, 0, 0, 7, 0, 0).is_empty());
    assert_eq!(inspect(pump, 0, 0, 0, 0, 0, 0), vec![Flag::PumpAndDump]);
    let bottomless = Hour { low: b(0.0), ..pump };
    assert!(inspect(bottomless, 0, 0, 0, 0, 0, 0).is_empty());
    assert!(needs_funding(b(3.1), b(10.1)) && !needs_funding(b(3.0), b(10.1)));
    assert_eq!(
        inspect(calm, b(3.1), b(10.1), b(50.1), 8, b(1.0), b(4000.1)),
        vec![Flag::Overheated, Flag::Wicks { count: 8 }, Flag::ThinBook]
    );
    assert!(inspect(calm, b(3.1), b(10.1), b(50.0), 0, b(0.0), b(9999.0)).is_empty());
    assert_eq!(count_wicks(&vec![b(0.8), b(0.1), b(0.7)], &vec![b(0.0), b(0.9), b(0.7)]), 2);
}

#[test]
fn the_large_symbols_are_always_listed() {
    let v = require_majors(vec!["A".into(), "ETHUSDT".into()]);
    assert_eq!(v, vec!["A", "ETHUSDT", "BTCUSDT", "BNBUSDT"]);
    assert_eq!(fallback_symbols(), vec!["BTCUSDT", "ETHUSDT", "BNBUSDT", "DOGEUSDT"]);
}

#[test]
fn the_breaker_pauses_and_resumes() {
    let mut c = CircuitBreaker::new();
    assert!(matches!(c.take_prices(Some(d("100")), Some(d("10")), None), Alarm::Quiet));
    assert!(matches!(c.take_prices(Some(d("98.9")), Some(d("10")), None), Alarm::Quiet));
    match c.take_prices(Some(d("98.9")), Some(d("9.87")), None) {
        Alarm::Pause { worst, fall } => {
            assert_eq!(worst, Some(Major::Eth));
            assert!(fall.equals(d("-1.3")));
        }
        _ => panic!("no pause"),
    }
    assert!(c.panic_mode);
    assert!(matches!(c.take_prices(Some(d("98.9")), Some(d("9.8")), None), Alarm::Quiet));
    assert!(matches!(c.take_prices(Some(d("99.5")), Some(d("9.95")), None), Alarm::Quiet));
    assert!(c.panic_mode);
    assert!(matches!(c.take_prices(Some(d("99.6")), Some(d("9.96")), Some(d("0"))), Alarm::Resume));
    assert!(!c.panic_mode);
    assert_eq!((c.btc.len(), c.bnb.len()), (6, 0));
    for _ in 0..20 {
        c.take_prices(Some(d("50")), None, None);
    }
    assert_eq!(c.btc.len(), 15);
    let mut far = CircuitBreaker::new();
    far.take_prices(Some(d("0.0000000000000000000000000001")), None, None);
    let top = d("79228162514264337593543950335");
    assert!(matches!(far.take_prices(Some(top), None, None), Alarm::Quiet));
}

fn ticker(sym: &str, change: f64, volume: f64) -> Ticker {
    Ticker { sym: sym.into(), change: b(change), volume: b(volume) }
}

#[test]
fn symbols_rotate() {
    let t = vec![
        ticker("NEWUSDT", 15.1, 50.1e6),
        ticker("OLDUSDT", 99.0, 99e6),
        ticker("BADUSDT", -5.1, 1.0),
        ticker("BTCUSDT", -9.0, 1e9),
        ticker("HELDUSDT", -9.0, 1e9),
        ticker("XAUUSDT", 99.0, 99e9),
        ticker("THINUSDT", 99.0, 1.0),
    ];
    let subs: Vec<String> =
        ["OLDUSDT", "BADUSDT", "BTCUSDT", "HELDUSDT"].iter().map(|s| s.to_string()).collect();
    let held: Vec<String> = vec!["HELDUSDT".into()];
    let (add, gone) = rotate(&t, &subs, &held);
    assert_eq!((add, gone), (vec![0], vec![2]));
}

#[test]
fn the_top_symbols_have_the_largest_turnover() {
    let t = vec![
        ticker("AUSDT", 0.0, 5.0),
        ticker("B_USDT", 0.0, 99.0),
        ticker("CUSDT", 0.0, 7.0),
        ticker("DUSDT", 0.0, 5.0),
        ticker("EUSD", 0.0, 99.0),
    ];
    assert_eq!(top_symbols(&t, 2), vec![2, 0]);
    assert_eq!(top_symbols(&t, 9), vec![2, 0, 3]);
}

#[test]
fn reports_set_positions_right() {
    let v = position_reports(r#"[{"symbol":"A","positionAmt":"0","entryPrice":"3"},{}]"#);
    assert_eq!(v.len(), 2);
    assert_eq!(
        (v[0].symbol.as_str(), v[0].amt.text(), v[0].entry.text()),
        ("A", "0".into(), "3".into())
    );
    assert_eq!(v[1].symbol, "");
}

#[test]
fn the_market_has_a_mood() {
    assert!(Mood::new().sentiment().is_none());
    let m = Mood::new().add_symbol(d("1"), d("0"), d("5")).unwrap();
    assert_eq!(m.valid, 0);
    let m = m.add_symbol(d("101"), d("100"), d("10")).unwrap();
    assert_eq!(m.sentiment().unwrap().0, Sentiment::Frenzy);
    let m = m.add_symbol(d("99.9"), d("100"), d("90")).unwrap();
    assert_eq!((m.up, m.down, m.valid), (1, 1, 2));
    let (name, avg) = m.sentiment().unwrap();
    assert_eq!(name, Sentiment::Mixed);
    assert!(avg.equals(d("0.01")));
    let one = |price: &str| Mood::new().add_symbol(d(price), d("100"), d("1")).unwrap();
    assert_eq!(one("100.1").sentiment().unwrap().0, Sentiment::Optimistic);
    assert_eq!(one("99.9").sentiment().unwrap().0, Sentiment::Pessimistic);
    assert_eq!(one("99.7").sentiment().unwrap().0, Sentiment::Panic);
    assert_eq!(one("100.05").sentiment().unwrap().0, Sentiment::Mixed);
}

#[test]
fn positions_are_shown_with_a_stop() {
    let line = |amt: &str, best: &str| {
        position_line(d(amt), d("100"), d(best), d("101"), d("102")).unwrap()
    };
    let l = line("2", "102");
    assert!(l.unrealized.equals(d("2")) && l.value.equals(d("202")));
    assert!(l.stop.equals(d("101.184")));
    assert!(line("2", "101").stop.equals(d("100.15")));
    assert!(line("2", "100.9").stop.equals(d("97.6")));
    let s = line("-2", "98");
    assert!(s.unrealized.equals(d("-4")) && s.value.equals(d("204")));
    assert!(s.stop.equals(d("98.784")));
    assert!(line("-2", "99").stop.equals(d("99.85")));
    assert!(line("-2", "99.9").stop.equals(d("102.4")));
    assert!(position_line(d("1"), d("0"), d("1"), d("1"), d("1")).is_none());
    let j = parse_json(r#"{"a":"1.5","b":2.5,"c":null}"#).unwrap();
    assert_eq!(read_stored(&j, "a").unwrap().text(), "1.5");
    assert_eq!(read_stored(&j, "b").unwrap().text(), "2.5");
    assert_eq!(read_stored(&j, "c").unwrap().text(), "0");
}

#[test]
fn midnight_is_eight_hours_ahead() {
    assert_eq!(seconds_to_midnight(1741536000, false), 86400);
    assert_eq!(seconds_to_midnight(1741536000, true), 86399);
    assert_eq!(seconds_to_midnight(1741535999, false), 1);
    assert_eq!(seconds_to_midnight(1741535999, true), 0);
}
