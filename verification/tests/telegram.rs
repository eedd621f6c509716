use matrix_quant::decimal::Dec;
use matrix_quant::json::{parse_json, parse_list};
use matrix_quant::orderbook::{Level, OrderBook};
use matrix_quant::portfolio::OrderAsk;
use matrix_quant::side::Side;
use matrix_quant::strategy::ControlMessage;
use matrix_quant::telegram::{
    account_report, control_for, grid_command, grid_writes, guard_command, guard_writes, history_request,
    history_start, is_authorised, list_trades, paper_command, paper_writes, order_ask, parse_order, pin,
    plan_order, positions_to_sync, price_change, price_interval, price_span, profit_span, rank_changes,
    read_texts, recent_trades, short_switch, symbol_argument, top_for, trade_outcome, unpin, write_texts,
    yesterday, AccountReport, DeskCommand, Figure, GridCommand, GuardCommand, Outcome, PaperCommand, ProfitSpan,
    Setting, ShortSwitch, TradeTotals,
};
use matrix_quant::text::words;

fn d(s: &str) -> Dec {
    Dec::read(s).unwrap()
}

fn doubles(w: &[String]) -> Vec<Option<u64>> {
    w.iter().map(|s| s.parse::<f64>().ok().map(|x| x.to_bits())).collect()
}

fn pairs(v: Vec<Setting>) -> Vec<(String, String)> {
    v.into_iter().map(|s| (s.key, s.value)).collect()
}

#[test]
fn only_the_set_chat_gives_commands() {
    assert!(is_authorised("", "5"));
    assert!(is_authorised("5", "5"));
    assert!(!is_authorised("5", "6"));
}

#[test]
fn arguments_are_brought_to_a_case() {
    assert_eq!(symbol_argument("  btcUsdt\n"), "BTCUSDT");
    assert_eq!(symbol_argument("ß"), "SS");
    assert_eq!(price_interval(" 15M "), "15m");
    assert_eq!(price_interval("1w"), "1w");
    assert_eq!(price_interval("24H"), "1d");
    assert_eq!((price_span(" 24h"), price_span("15M")), ("24h".into(), "15m".into()));
    assert_eq!((price_span("25h"), price_interval("25h")), ("5m".into(), "5m".into()));
    assert_eq!(price_interval(""), "5m");
}

#[test]
fn changes_are_ranked() {
    assert!(price_change(d("110"), d("100")).unwrap().equals(d("10")));
    assert!(price_change(d("0"), d("100")).is_none());
    assert!(price_change(d("1"), d("0")).is_none());
    assert_eq!(rank_changes(&vec![d("1"), d("5"), d("-2"), d("5.0")]), vec![1, 3, 0, 2]);
}

#[test]
fn days_start_at_midnight_eight_hours_ahead() {
    // 2025-03-10 00:30 at UTC+8
    let now: u64 = 1741537800;
    let (start, end) = yesterday(now);
    assert_eq!(start, (1741536000 - 86400) * 1000);
    assert_eq!(end, (1741536000 - 1) * 1000);
    assert_eq!(history_start(now, 1), Some(1741536000000));
    assert_eq!(history_start(now, 0), Some(1741536000000));
    assert_eq!(history_start(now, 3), Some((1741536000 - 2 * 86400) * 1000));
    assert_eq!(history_start(now, 4294967295), None);
}

#[test]
fn orders_are_read() {
    let o = parse_order("ethusdt 500 10 1800").unwrap();
    assert_eq!(o.symbol, "ETHUSDT");
    assert_eq!((o.margin.text(), o.leverage.text()), ("500".into(), "10".into()));
    assert_eq!(o.limit.unwrap().text(), "1800");
    let o = parse_order("x y z").unwrap();
    assert_eq!((o.margin.text(), o.leverage.text()), ("0".into(), "1".into()));
    assert!(o.limit.is_none());
    assert!(parse_order("x 1").is_none() && parse_order("x 1 2 3 4").is_none());
}

#[test]
fn orders_are_planned() {
    let top = Some(Level { price: d("7"), qty: d("1") });
    let rules = Some((d("0.1"), d("0.5")));
    let market = parse_order("A 100 2.9").unwrap();
    let p = plan_order(&market, top, rules).unwrap();
    assert_eq!((p.leverage, p.entry.text(), p.qty.text()), (2, "7".into(), "41.4".into()));
    assert!(p.limit.is_none());
    let limited = parse_order("A 100 10 7.77").unwrap();
    let p = plan_order(&limited, top, rules).unwrap();
    assert_eq!((p.entry.text(), p.limit.unwrap().text()), ("7.77".into(), "7.5".into()));
    assert_eq!(p.qty.text(), "128.7");
    assert!(plan_order(&limited, top, None).unwrap().limit.is_none());
    let bare = parse_order("A 100 -3").unwrap();
    let p = plan_order(&bare, None, None).unwrap();
    assert_eq!((p.leverage, p.entry.text()), (1, "1".into()));
    let zero = parse_order("A 100 2 0").unwrap();
    assert!(plan_order(&zero, top, rules).is_none());
}

#[test]
fn spans_of_time_are_read() {
    assert_eq!(profit_span("10m"), ProfitSpan::Seconds(600));
    assert_eq!(profit_span(" 2H "), ProfitSpan::Seconds(7200));
    assert_eq!(profit_span("1d"), ProfitSpan::Seconds(86400));
    assert_eq!(profit_span("4w"), ProfitSpan::Seconds(2419200));
    assert_eq!(profit_span("1m0m"), ProfitSpan::Seconds(600));
    assert_eq!(profit_span("30d"), ProfitSpan::Seconds(2592000));
    assert_eq!(profit_span("31d"), ProfitSpan::Invalid);
    assert_eq!(profit_span("0m"), ProfitSpan::Invalid);
    assert_eq!(profit_span("xm"), ProfitSpan::Invalid);
    assert_eq!(profit_span("18446744073709551615w"), ProfitSpan::Invalid);
    assert_eq!(profit_span("5"), ProfitSpan::BadUnit);
    assert_eq!(profit_span("  "), ProfitSpan::Empty);
}

#[test]
fn the_short_switch_is_read() {
    assert_eq!(short_switch(" ON"), ShortSwitch::On);
    assert_eq!(short_switch("off"), ShortSwitch::Off);
    assert_eq!(short_switch("maybe"), ShortSwitch::Bad);
}

#[test]
fn requests_for_the_history_are_read() {
    assert_eq!(history_request(""), (1, None));
    assert_eq!(history_request("btc 3"), (3, Some("BTC".into())));
    assert_eq!(history_request("3 a b 7"), (7, Some("B".into())));
    assert_eq!(history_request("-3"), (1, Some("-3".into())));
}

#[test]
fn trades_are_totalled() {
    let trades = parse_list(
        r#"[{"realizedPnl":"5.50","commission":"0.1","time":3},
            {"realizedPnl":"-2","commission":"0.2","time":9},
            {"realizedPnl":"0","commission":"x","time":9},
            {"realizedPnl":"-0.0004","commission":"0.3"},
            {"realizedPnl":"0.00000000"}]"#,
    )
    .unwrap();
    let mut t = TradeTotals::new();
    for x in &trades {
        t = t.add_trade(x).unwrap();
    }
    assert_eq!(
        vec![t.profit.text(), t.loss.text(), t.fee.text()],
        vec!["5.50", "2", "0.6"]
    );
    assert_eq!(t.net().unwrap().text(), "2.90");
    assert_eq!(list_trades(&trades), vec![2, 1, 0, 4, 3]);
    assert!(matches!(trade_outcome(&trades[0]), Outcome::Profit(_)));
    assert!(matches!(trade_outcome(&trades[1]), Outcome::Loss(_)));
    assert!(matches!(trade_outcome(&trades[3]), Outcome::Nothing));
    let most = parse_json(r#"{"realizedPnl":"79228162514264337593543950335"}"#).unwrap();
    assert!(t.add_trade(&most).is_none());
}

#[test]
fn accounts_are_reported() {
    match account_report("?") {
        AccountReport::NotJson(why) => assert_eq!(why, "expected value at line 1 column 1"),
        _ => panic!("JSON"),
    }
    match account_report(r#"{"msg":"bad key"}"#) {
        AccountReport::Refused(m) => assert_eq!(m, "bad key"),
        _ => panic!("not refused"),
    }
    match account_report(r#"{"totalWalletBalance":"1.5","availableBalance":2.50,"canTrade":false}"#) {
        AccountReport::Account { balance, unrealized, available, can_trade } => {
            assert!(matches!(balance, Figure::Text(s) if s == "1.5"));
            assert!(matches!(unrealized, Figure::Missing));
            assert!(matches!(available, Figure::Number(s) if s == "2.5"));
            assert!(!can_trade);
        }
        _ => panic!("no account"),
    }
    assert!(matches!(account_report("{}"), AccountReport::Account { can_trade: true, .. }));
}

#[test]
fn positions_to_sync_are_the_open_ones() {
    let text = r#"[{"symbol":"A","positionAmt":"1"},{"symbol":"B","positionAmt":"0"},{"symbol":"C","positionAmt":"-0.1"}]"#;
    assert_eq!(positions_to_sync(text), vec!["A", "C"]);
}

fn guard(s: &str) -> (GuardCommand, Vec<(String, String)>) {
    let w = words(s);
    let c = guard_command(&w, &doubles(&w));
    (c, pairs(guard_writes(c, &w)))
}

fn set(k: &str, v: &str) -> (String, String) {
    (k.to_string(), v.to_string())
}

#[test]
fn commands_to_the_guardian() {
    assert_eq!(guard("").0, GuardCommand::Status);
    assert_eq!(guard("status").0, GuardCommand::Status);
    assert_eq!(guard("stats").0, GuardCommand::Stats);
    assert_eq!(guard("on").1, vec![set("GUARD_ENABLED", "1")]);
    assert_eq!(guard("off").1, vec![set("GUARD_ENABLED", "0")]);
    assert_eq!(guard("stop 50").1, vec![set("GUARD_STOP_ROE", "50")]);
    assert_eq!(guard("stop 5").0, GuardCommand::Stop);
    assert_eq!(guard("stop 90.0").0, GuardCommand::Stop);
    for bad in ["stop 4.99", "stop 90.01", "stop x", "stop nan"] {
        assert_eq!(guard(bad), (GuardCommand::BadStop, vec![]));
    }
    assert_eq!(guard("alert 45").0, GuardCommand::Alert { minutes: 45 });
    assert_eq!(guard("alert 45").1, vec![set("GUARD_HOLD_ALERT_MIN", "45")]);
    assert_eq!(guard("alert 0").0, GuardCommand::BadAlert);
    assert_eq!(guard("autotune on").1, vec![set("GUARD_AUTO_TUNE", "1")]);
    assert_eq!(guard("autotune off").1, vec![set("GUARD_AUTO_TUNE", "0")]);
    assert_eq!(guard("autotune x").0, GuardCommand::Usage);
    assert_eq!(guard("giveback off").1, vec![set("GUARD_TRAIL_GIVEBACK_PCT", "0")]);
    assert_eq!(guard("giveback 30").1, vec![set("GUARD_TRAIL_GIVEBACK_PCT", "30")]);
    assert_eq!(guard("giveback 61").0, GuardCommand::BadGiveback);
    assert_eq!(guard("trail off").1, vec![set("GUARD_TRAIL_ENABLED", "0")]);
    assert_eq!(guard("trail on").1, vec![set("GUARD_TRAIL_ENABLED", "1")]);
    assert_eq!(guard("trail x").0, GuardCommand::Usage);
    assert_eq!(
        guard("trail 20 15").1,
        vec![
            set("GUARD_TRAIL_ARM_ROE", "20"),
            set("GUARD_TRAIL_ROE", "15"),
            set("GUARD_TRAIL_ENABLED", "1"),
            set("GUARD_AUTO_TUNE", "0")
        ]
    );
    for bad in ["trail 15 15", "trail 1.9 1", "trail 301 10", "trail 20 0.5", "trail a b"] {
        assert_eq!(guard(bad), (GuardCommand::BadTrail, vec![]));
    }
    assert_eq!(guard("autoclose off").1, vec![set("GUARD_AUTO_CLOSE_MIN", "0")]);
    assert_eq!(guard("autoclose 0").0, GuardCommand::AutoCloseOff);
    assert_eq!(guard("autoclose 60").1, vec![set("GUARD_AUTO_CLOSE_MIN", "60")]);
    assert_eq!(guard("autoclose -1").0, GuardCommand::BadAutoClose);
    assert_eq!(guard("what").0, GuardCommand::Usage);
    assert_eq!(guard("a b c d").0, GuardCommand::Usage);
}

#[test]
fn the_log_is_read_for_a_week() {
    let log: Vec<String> = vec![
        r#"{"ts":700000000,"armed":true}"#.into(),
        "junk".into(),
        r#"{"ts":95199999,"direct_exit":true}"#.into(),
        r#"{"ts":95200000,"direct_exit":true}"#.into(),
    ];
    let r = recent_trades(&log, 700_000_000);
    assert_eq!(r.len(), 2);
    assert_eq!((r[0].place, r[0].armed, r[0].direct), (0, true, false));
    assert_eq!((r[1].place, r[1].armed, r[1].direct), (3, false, true));
}

#[test]
fn commands_to_the_paper_trader() {
    let run = |s: &str| {
        let w = words(s);
        let c = paper_command(&w, &doubles(&w));
        (c, pairs(paper_writes(c, &w)))
    };
    assert_eq!(run("").0, PaperCommand::Status);
    assert_eq!(run("on").1, vec![set("PAPER_ENABLED", "1")]);
    assert_eq!(run("off").1, vec![set("PAPER_ENABLED", "0")]);
    assert_eq!(run("trail 3").1, vec![set("PAPER_TRAIL_PCT", "3")]);
    assert_eq!(run("trail 0.5").0, PaperCommand::Trail);
    assert_eq!(run("trail 20.1"), (PaperCommand::BadTrail, vec![]));
    assert_eq!(run("reset").0, PaperCommand::Reset);
    assert_eq!(run("trail").0, PaperCommand::Usage);
}

#[test]
fn commands_to_the_grids() {
    let run = |s: &str, pins: Option<&str>| {
        let w = words(s);
        let c = grid_command(&w, &doubles(&w));
        (c, pairs(grid_writes(c, &w, pins)))
    };
    assert_eq!(run("", None).0, GridCommand::Status);
    assert_eq!(run("on", None).1, vec![set("GRID_LIVE_ENABLED", "1")]);
    assert_eq!(run("on act", None).0, GridCommand::NotUsdt);
    assert_eq!(
        run("on actusdt", Some("[\"AUSDT\"]")).1,
        vec![
            set("GRID_LIVE_PINS", "[\"AUSDT\",\"ACTUSDT\"]"),
            set("GRID_LIVE_ENABLED", "1")
        ]
    );
    assert_eq!(
        run("on ausdt", Some("[\"AUSDT\"]")).1[0],
        set("GRID_LIVE_PINS", "[\"AUSDT\"]")
    );
    assert_eq!(
        run("unpin ausdt", Some("[\"AUSDT\",\"B\",\"AUSDT\"]")).1,
        vec![set("GRID_LIVE_PINS", "[\"B\"]")]
    );
    assert_eq!(
        run("stop xusdt", None).1,
        vec![set("GRID_LIVE_STOP_XUSDT", "1"), set("GRID_LIVE_PINS", "[]")]
    );
    assert_eq!(run("auto on", None).1, vec![set("GRID_LIVE_AUTO", "1")]);
    assert_eq!(run("auto off", None).1, vec![set("GRID_LIVE_AUTO", "0")]);
    assert_eq!(run("auto x", None).0, GridCommand::Usage);
    assert_eq!(run("off", None).1, vec![set("GRID_LIVE_ENABLED", "0")]);
    assert_eq!(run("liquidate", None).1, vec![set("GRID_LIVE_LIQUIDATE", "1")]);
    assert_eq!(run("budget 50", None).1, vec![set("GRID_LIVE_BUDGET", "50")]);
    assert_eq!(run("budget 9.9", None), (GridCommand::BadBudget, vec![]));
    assert_eq!(run("slots 6", None).0, GridCommand::Slots { slots: 6 });
    assert_eq!(run("slots 6", None).1, vec![set("GRID_LIVE_MAX_ACTIVE", "6")]);
    assert_eq!(run("slots 7", None).0, GridCommand::BadSlots);
    assert_eq!(run("slots 0", None).0, GridCommand::BadSlots);
    assert_eq!(run("on a b", None).0, GridCommand::Usage);
}

#[test]
fn lists_of_symbols_are_read_back() {
    let v: Vec<String> = vec!["A\"B".into(), "\u{1f600}\n".into(), "".into()];
    let text = write_texts(&v);
    assert_eq!(read_texts(Some(&text)), v);
    assert!(read_texts(None).is_empty());
    assert!(read_texts(Some("[1]")).is_empty());
    assert!(read_texts(Some("{}")).is_empty());
    assert_eq!(pin(pin(Vec::new(), "A"), "A"), vec!["A"]);
    assert_eq!(unpin(vec!["A".into(), "B".into()], "A"), vec!["B"]);
}

#[test]
fn orders_are_priced_by_the_other_side() {
    let book = OrderBook {
        bids: vec![Level { price: d("7"), qty: d("1") }],
        asks: vec![Level { price: d("8"), qty: d("1") }],
    };
    assert_eq!(top_for(&book, true).unwrap().price.text(), "8");
    assert_eq!(top_for(&book, false).unwrap().price.text(), "7");
    assert!(top_for(&OrderBook::empty(), true).is_none());
}

#[test]
fn an_order_with_a_limit_is_a_limit_order() {
    let rules = Some((d("0.1"), d("0.5")));
    let limited = parse_order("A 100 10 7.77").unwrap();
    let plan = plan_order(&limited, None, rules).unwrap();
    let expected =
        OrderAsk::Limit { side: "BUY".into(), qty: "128.7".into(), price: "7.5".into() };
    assert_eq!(order_ask(Side::Buy, &limited, plan), expected);
    let plan = plan_order(&limited, None, None).unwrap();
    assert!(matches!(
        order_ask(Side::Sell, &limited, plan),
        OrderAsk::Limit { side, price, .. } if side == "SELL" && price.is_empty()
    ));
}

#[test]
fn an_order_without_a_limit_may_open_at_the_market() {
    let market = parse_order("A 100 2").unwrap();
    let plan = plan_order(&market, None, None).unwrap();
    let expected = OrderAsk::Market { side: "SELL".into(), qty: "200".into(), reduce_only: false };
    assert_eq!(order_ask(Side::Sell, &market, plan), expected);
}

#[test]
fn commands_reach_the_strategies() {
    assert!(matches!(control_for(DeskCommand::Panic), ControlMessage::ClearPosition));
    assert!(matches!(control_for(DeskCommand::Close), ControlMessage::ClosePosition));
    assert!(matches!(control_for(DeskCommand::Sync), ControlMessage::SyncPosition));
    assert!(matches!(control_for(DeskCommand::Pause), ControlMessage::PauseTrading));
    assert!(matches!(control_for(DeskCommand::Resume), ControlMessage::ResumeTrading));
    for on in [true, false] {
        assert!(matches!(
            control_for(DeskCommand::Short { on }),
            ControlMessage::AllowShorting(x) if x == on
        ));
    }
}
