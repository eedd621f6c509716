use matrix_quant::bits::{at_most, below, double_place, lesser};
use matrix_quant::grid_live::{
    breaker_trips, buy_lines, check_bust, check_init, hour_bucket, is_left_alone, is_stopped,
    may_start, next_start, report_due, start_grid, start_order, start_step, state_key,
    AfterFailure, Bust, GridPatrol, GridReply, GridSettings, InitError, LineAsk, LineState,
    LiveGrid, RoundKind, StartAsk,
};
use matrix_quant::grid_paper::{wants_grid, BarOutcome, GridPos, GridStats, Sale};
use matrix_quant::json::parse_json;
use matrix_quant::spot::{
    balance_reply, is_large_enough, open_ids, order_id_reply, order_report, price_reply,
    rules_complete, rules_reply, sellable, spot_reply, trim_numeral, OrderStatus, SpotClient,
    SpotError,
};

fn b(x: f64) -> u64 {
    x.to_bits()
}

fn grid() -> LiveGrid {
    LiveGrid::new(
        "ACTUSDT",
        vec![b(90.0), b(95.0), b(100.0)],
        b(25.0),
        b(0.1),
        b(0.01),
        b(5.0),
    )
}

#[test]
fn doubles_are_ordered_by_their_bits() {
    let v = [f64::NEG_INFINITY, -2.5, -1e-300, 0.0, 1e-300, 1.0, 2.5, f64::INFINITY];
    for (i, x) in v.iter().enumerate() {
        for (j, y) in v.iter().enumerate() {
            assert_eq!(below(b(*x), b(*y)), i < j);
            assert_eq!(at_most(b(*x), b(*y)), i <= j);
        }
    }
    assert_eq!(double_place(b(-0.0)), double_place(b(0.0)));
    assert_eq!(double_place(b(f64::NAN)), None);
    assert!(!below(b(f64::NAN), b(1.0)) && !at_most(b(1.0), b(f64::NAN)));
    assert_eq!(lesser(b(1.0), b(2.0)), b(1.0));
    assert_eq!(lesser(b(3.0), b(2.0)), b(2.0));
    assert_eq!(lesser(b(f64::NAN), b(2.0)), b(2.0));
    assert_eq!(lesser(b(2.0), b(f64::NAN)), b(2.0));
}

#[test]
fn a_grid_starts_without_orders() {
    let g = grid();
    assert_eq!((g.symbol.as_str(), g.base_asset.as_str()), ("ACTUSDT", "ACT"));
    assert_eq!(g.n_buy_lines(), 2);
    assert!(g.open_order_ids().is_empty() && g.holdings().is_empty());
    assert_eq!(state_key("ACTUSDT"), "GRID_LIVE_STATE_ACTUSDT");
}

#[test]
fn a_step_buys_and_sells() {
    let mut g = grid();
    let none: Vec<u64> = Vec::new();
    assert_eq!(g.line_ask(0, b(99.0), &none), LineAsk::Buy { price: b(90.0) });
    assert_eq!(g.line_ask(1, b(94.0), &none), LineAsk::Nothing);
    assert_eq!(g.line_ask(2, b(999.0), &none), LineAsk::Nothing);
    g.line_placed(0, None);
    assert_eq!(g.line_states[0], None);
    g.line_placed(0, Some(11));
    assert_eq!(g.open_order_ids(), vec![11]);
    assert_eq!(g.line_ask(0, b(99.0), &vec![11]), LineAsk::Nothing);
    assert_eq!(g.line_ask(0, b(99.0), &none), LineAsk::ReadOrder { order_id: 11 });
    let ask = g.line_read(0, OrderStatus::Filled, b(0.3), b(0.2997), b(27.0), 0);
    assert_eq!(ask, LineAsk::Sell { qty: b(0.2997), price: b(95.0) });
    assert_eq!(g.holdings(), vec![(b(0.2997), b(27.0))]);
    g.line_placed(0, None);
    assert_eq!(g.line_ask(0, b(99.0), &none), LineAsk::Sell { qty: b(0.2997), price: b(95.0) });
    g.line_placed(0, Some(12));
    let ask = g.line_read(0, OrderStatus::Ended, 0, 0, 0, 0);
    assert_eq!(ask, LineAsk::Nothing);
    assert_eq!(g.holdings(), vec![(b(0.2997), b(27.0))]);
    g.line_placed(0, Some(13));
    let ask = g.line_read(0, OrderStatus::Filled, b(0.2997), 0, b(28.4), b(1.4));
    assert_eq!(ask, LineAsk::Buy { price: b(90.0) });
    assert_eq!((g.realized_total, g.round_trips), (b(1.4), 1));
    assert!(g.holdings().is_empty());
}

#[test]
fn an_ended_purchase_keeps_what_was_bought() {
    let mut g = grid();
    g.line_placed(1, Some(5));
    g.line_read(1, OrderStatus::Other, b(0.1), b(0.0999), b(9.0), 0);
    assert_eq!(g.line_states[1], Some(LineState::WaitBuy { order_id: 5 }));
    g.line_read(1, OrderStatus::Ended, b(0.1), b(0.0999), b(9.0), 0);
    assert_eq!(
        g.line_states[1],
        Some(LineState::WaitSell { order_id: 0, qty: b(0.0999), buy_quote: b(9.0) })
    );
    g.line_placed(0, Some(6));
    g.line_read(0, OrderStatus::Ended, b(0.0), b(0.0), b(0.0), 0);
    assert_eq!(g.line_states[0], None);
}

#[test]
fn a_pause_keeps_the_coins() {
    let mut g = grid();
    assert!(!g.pause());
    g.line_placed(0, Some(6));
    g.line_placed(1, Some(7));
    g.line_read(1, OrderStatus::Filled, b(0.1), b(0.0999), b(9.0), 0);
    g.line_placed(1, Some(8));
    let before = g.holdings();
    assert!(g.pause());
    assert_eq!(g.holdings(), before);
    assert!(g.open_order_ids().is_empty());
    assert_eq!(g.line_states[0], None);
}

#[test]
fn settings_of_the_grids() {
    let s = GridSettings::read(None, None, None, None, None);
    assert!(!s.enabled && !s.liquidate && s.is_auto);
    assert_eq!((s.max_active, s.slots()), (2, 2));
    let s = GridSettings::read(Some("1"), Some("1"), Some("9"), Some("ACTUSDT"), None);
    assert!(s.enabled && s.liquidate && !s.is_auto);
    assert_eq!((s.max_active, s.slots()), (6, 1));
    assert_eq!(GridSettings::read(None, None, Some("0"), Some(""), None).max_active, 1);
    assert_eq!(GridSettings::read(None, None, Some("x"), Some("AUTO"), None).max_active, 2);
}

#[test]
fn grids_are_started_and_given_up() {
    assert_eq!((buy_lines(0), buy_lines(5), buy_lines(100)), (2, 5, 8));
    assert_eq!(check_init(b(49.0), b(50.0), b(25.0), b(5.0)), Err(InitError::TooLittleMoney));
    assert_eq!(check_init(b(50.0), b(50.0), b(4.0), b(5.0)), Err(InitError::StepTooSmall));
    assert_eq!(check_init(b(50.0), b(50.0), b(5.0), b(5.0)), Ok(()));
    assert_eq!(check_bust(b(90.0), b(90.0), b(110.0)), Bust::Below);
    assert_eq!(check_bust(b(110.0), b(90.0), b(110.0)), Bust::Above);
    assert_eq!(check_bust(b(100.0), b(90.0), b(110.0)), Bust::No);
    assert!(breaker_trips(b(-10.0), b(-10.0), 1));
    assert!(!breaker_trips(b(-9.9), b(-10.0), 1));
    assert!(!breaker_trips(b(-99.0), b(-10.0), 0));
    assert_eq!(hour_bucket(2025, 3, 9, 7), "2025-03-09-07");
    assert!(report_due("", "x", 1) && !report_due("x", "x", 1) && !report_due("", "x", 0));
}

#[test]
fn spot_requests() {
    let c = SpotClient::new("k", "s", None);
    assert_eq!(c.base_url, "https://api.binance.com");
    let c = SpotClient::new("k", "s", Some("u"));
    assert_eq!(c.symbol_rules("A").url, "u/api/v3/exchangeInfo?symbol=A");
    assert_eq!(c.last_price("A").url, "u/api/v3/ticker/price?symbol=A");
    let url = c.place_limit("A", "BUY", "1.500000000000", "20.000000000000", 9).url;
    assert!(url.starts_with(
        "u/api/v3/order?symbol=A&side=BUY&type=LIMIT&timeInForce=GTC&quantity=1.5&price=20&recvWindow=10000&timestamp=9&signature="
    ));
    assert!(c.market_sell("A", "0.100", 9).url.contains("type=MARKET&quantity=0.1&recv"));
    assert!(c.cancel_order("A", 3, 9).url.contains("symbol=A&orderId=3&recvWindow=10000"));
    assert!(c.get_order("A", 3, 9).url.contains("symbol=A&orderId=3&recvWindow=10000"));
    assert!(c.open_order_ids("A", 9).url.contains("/openOrders?symbol=A&recvWindow"));
    assert!(c.free_balance(9).url.starts_with("u/api/v3/account?recvWindow=10000&timestamp=9&sig"));
    assert_eq!(trim_numeral("10.000"), "10");
    assert_eq!(trim_numeral("0.00"), "0");
}

#[test]
fn spot_replies() {
    assert!(matches!(spot_reply(false, "{}"), Err(SpotError::Refused)));
    assert!(matches!(spot_reply(true, "?"), Err(SpotError::NotJson)));
    let j = spot_reply(true, r#"{"orderId":4}"#).ok().unwrap();
    assert_eq!(order_id_reply(&j), Ok(4));
    assert_eq!(order_id_reply(&parse_json("{}").unwrap()), Err(SpotError::NoOrderId));
    let r = order_report(&parse_json(r#"{"status":"EXPIRED","executedQty":"1.0"}"#).unwrap());
    assert_eq!((r.status, r.executed.as_deref(), r.quote), (OrderStatus::Ended, Some("1.0"), None));
    for (word, status) in [
        ("FILLED", OrderStatus::Filled),
        ("CANCELED", OrderStatus::Ended),
        ("REJECTED", OrderStatus::Ended),
        ("PARTIALLY_FILLED", OrderStatus::Other),
    ] {
        let j = parse_json(&format!("{{\"status\":\"{}\"}}", word)).unwrap();
        assert_eq!(order_report(&j).status, status);
    }
    assert_eq!(open_ids(&parse_json(r#"[{"orderId":1},{},{"orderId":3}]"#).unwrap()), vec![1, 3]);
    assert!(open_ids(&parse_json("{}").unwrap()).is_empty());
    let j = parse_json(r#"{"balances":[{"asset":"A","free":"1.5"},{"asset":"B"}]}"#).unwrap();
    assert_eq!(balance_reply(&j, "A").ok().unwrap().as_deref(), Some("1.5"));
    assert_eq!(balance_reply(&j, "B").ok().unwrap(), None);
    assert_eq!(balance_reply(&j, "C").ok().unwrap(), None);
    assert!(matches!(
        balance_reply(&parse_json("{}").unwrap(), "A"),
        Err(SpotError::NoBalances)
    ));
    assert_eq!(price_reply(r#"{"price":"3.1"}"#).ok().unwrap(), "3.1");
    assert!(matches!(price_reply("{}"), Err(SpotError::NoPrice)));
    assert!(matches!(price_reply("?"), Err(SpotError::NotJson)));
}

#[test]
fn spot_rules() {
    let text = r#"{"symbols":[{"filters":[
        {"filterType":"PRICE_FILTER","tickSize":"0.01"},
        {"filterType":"LOT_SIZE","stepSize":"0.1"},
        {"filterType":"MIN_NOTIONAL","minNotional":"5"},
        {"filterType":"NOTIONAL","minNotional":"10"}]}]}"#;
    let r = rules_reply(text).ok().unwrap();
    assert_eq!((r.tick_size.as_deref(), r.step_size.as_deref()), (Some("0.01"), Some("0.1")));
    assert_eq!(r.min_notional, vec!["5", "10"]);
    assert!(matches!(rules_reply(r#"{"code":-1121}"#), Err(SpotError::UnknownSymbol)));
    assert!(matches!(rules_reply(r#"{"symbols":[]}"#), Err(SpotError::NoFilters)));
    assert!(matches!(rules_reply("{}"), Err(SpotError::NoFilters)));
    assert!(matches!(rules_reply("?"), Err(SpotError::NotJson)));
    assert!(rules_complete(b(0.1), b(0.1)));
    assert!(!rules_complete(b(0.0), b(0.1)) && !rules_complete(b(0.1), b(-1.0)));
    assert!(is_large_enough(b(5.0), b(5.0)) && !is_large_enough(b(4.9), b(5.0)));
    assert_eq!(sellable(b(2.0), Some(b(1.5))), Some(b(1.5)));
    assert_eq!(sellable(b(2.0), None), Some(b(2.0)));
    assert_eq!(sellable(b(2.0), Some(b(0.0))), None);
}

#[test]
fn paper_grids_trade_step_by_step() {
    let mut g = GridPos::new("A", vec![b(90.0), b(95.0), b(100.0)], 7);
    match g.take_bar(b(99.0), b(94.0), b(95.0), b(80.0), b(120.0)) {
        BarOutcome::Traded(sales) => {
            assert_eq!(sales, vec![]);
        }
        _ => panic!("bust"),
    }
    assert_eq!(g.holding, vec![false, true, true]);
    assert_eq!(g.entry_price, vec![0, b(95.0), b(100.0)]);
    match g.take_bar(b(101.0), b(96.0), b(100.0), b(80.0), b(120.0)) {
        BarOutcome::Traded(sales) => {
            assert_eq!(sales, vec![Sale { step: 1, bought: b(95.0), sold: b(100.0) }]);
        }
        _ => panic!("bust"),
    }
    assert_eq!(g.holding, vec![false, false, true]);
    match g.take_bar(b(99.0), b(80.0), b(81.0), b(80.0), b(120.0)) {
        BarOutcome::Bust { above, sales } => {
            assert!(!above);
            assert_eq!(sales, vec![Sale { step: 2, bought: b(100.0), sold: b(81.0) }]);
        }
        _ => panic!("traded"),
    }
    assert_eq!(g.holding, vec![false, false, false]);
    g.checked(99);
    assert_eq!((g.opened_ms, g.last_checked_ms), (7, 99));
    match g.take_bar(b(120.0), b(80.0), b(81.0), b(80.0), b(120.0)) {
        BarOutcome::Bust { above, .. } => assert!(above),
        _ => panic!("traded"),
    }
}

#[test]
fn paper_grids_have_room() {
    let active: Vec<String> = vec!["A".into(), "B".into()];
    assert!(wants_grid("C", &active, false));
    assert!(!wants_grid("A", &active, false));
    assert!(!wants_grid("C", &active, true));
    let full: Vec<String> = vec!["A".into(), "B".into(), "D".into()];
    assert!(!wants_grid("C", &full, false));
}

#[test]
fn paper_grids_are_tallied() {
    let mut t =
        GridStats { total_net: 0, gross_win: 0, gross_loss: 0, trades: 0, wins: 0, busts: 0 };
    t.book_sale(b(2.0), b(2.0), b(2.0), b(99.0));
    t.book_sale(b(-0.5), b(1.5), b(77.0), b(0.5));
    t.book_bust(b(-3.0), b(-1.5), b(77.0), b(3.5));
    t.book_bust(b(1.0), b(-0.5), b(3.0), b(99.0));
    assert_eq!((t.trades, t.wins, t.busts), (2, 1, 2));
    assert_eq!((t.total_net, t.gross_win, t.gross_loss), (b(-0.5), b(3.0), b(3.5)));
}

#[test]
fn grids_run_only_where_switched_on() {
    let kind = |on: Option<&str>, sell: Option<&str>| {
        GridSettings::read(on, sell, None, None, None).round_kind()
    };
    assert_eq!(kind(None, None), RoundKind::Pause);
    assert_eq!(kind(Some("0"), None), RoundKind::Pause);
    assert_eq!(kind(Some("1"), Some("0")), RoundKind::Run);
    assert_eq!(kind(Some("1"), Some("1")), RoundKind::SellAll);
    assert_eq!(kind(None, Some("1")), RoundKind::SellAll);
    let auto = GridSettings::read(None, None, None, None, None);
    assert_eq!(auto.on_failure(), AfterFailure::CoolDown);
    let manual = GridSettings::read(None, None, None, Some("ACTUSDT"), None);
    assert_eq!(manual.on_failure(), AfterFailure::SwitchOff);
    assert!(may_start(1, 2, Some(b(50.0)), b(50.0)));
    assert!(!may_start(2, 2, Some(b(50.0)), b(50.0)));
    assert!(!may_start(1, 2, Some(b(49.9)), b(50.0)));
    assert!(!may_start(1, 2, None, b(50.0)));
}

#[test]
fn pinned_symbols_are_started_first() {
    let list = |v: &[&str]| -> Vec<String> { v.iter().map(|s| s.to_string()).collect() };
    let pins = list(&["P"]);
    let order = start_order(&pins, &list(&["A", "B"]), true);
    assert_eq!(order, vec!["P", "A", "B"]);
    assert_eq!(start_order(&pins, &list(&["A", "B"]), false), vec!["P"]);
    assert!(GridSettings::read(None, None, None, None, None).fills);
    assert!(!GridSettings::read(None, None, None, None, Some("0")).fills);
    let free = Some(b(50.0));
    let next = |known: &[&str], alone: &[bool], running: usize| {
        next_start(&order, &list(known), &alone.to_vec(), running, 2, free, b(50.0))
    };
    assert_eq!(next(&[], &[false, false, false], 0), Some(0));
    assert_eq!(next(&["P"], &[false, false, false], 1), Some(1));
    assert_eq!(next(&["P"], &[false, true, false], 1), Some(2));
    assert_eq!(next(&["P"], &[false, true, true], 1), None);
    assert_eq!(next(&["P", "A"], &[false, false, false], 2), None);
    assert_eq!(next_start(&order, &list(&[]), &vec![false; 3], 0, 2, Some(b(49.0)), b(50.0)), None);
    assert!(is_stopped(Some("1"), "A", &pins) && !is_stopped(Some("1"), "P", &pins));
    assert!(!is_stopped(None, "A", &pins));
    assert!(is_left_alone(Some("1"), None, "P", &pins) && is_left_alone(None, Some("1"), "A", &pins));
    assert!(!is_left_alone(None, Some("1"), "P", &pins));
}

#[test]
fn a_round_goes_through_all_steps() {
    let mut g = grid();
    g.line_placed(0, Some(11));
    g.line_placed(1, Some(12));
    g.line_read(1, OrderStatus::Filled, b(0.1), b(0.0999), b(9.0), 0);
    g.line_placed(1, Some(13));
    let mut p = GridPatrol::begin(&g, b(99.0), vec![]);
    assert_eq!(p.ask, LineAsk::ReadOrder { order_id: 11 });
    p.advance(&mut g, GridReply::Unknown);
    assert_eq!((p.place, p.ask), (1, LineAsk::ReadOrder { order_id: 13 }));
    let sold = GridReply::Report {
        status: OrderStatus::Filled,
        executed: b(0.0999),
        sell_qty: 0,
        quote: b(9.5),
        realized: b(0.5),
    };
    p.advance(&mut g, sold);
    assert_eq!((p.place, p.ask, p.sold), (1, LineAsk::Buy { price: b(95.0) }, 1));
    assert_eq!((g.round_trips, g.realized_total), (1, b(0.5)));
    p.advance(&mut g, GridReply::Placed(Some(14)));
    assert_eq!((p.place, p.ask), (2, LineAsk::Nothing));
    p.advance(&mut g, GridReply::Unknown);
    assert!(p.is_over(&g));
    assert_eq!(g.open_order_ids(), vec![11, 14]);
}

#[test]
fn what_was_bought_is_offered_a_step_higher() {
    let mut g = grid();
    g.line_placed(0, Some(11));
    let mut p = GridPatrol::begin(&g, b(99.0), vec![]);
    assert!(!p.was_read);
    let bought = GridReply::Report {
        status: OrderStatus::Filled,
        executed: b(0.3),
        sell_qty: b(0.2997),
        quote: b(27.0),
        realized: 0,
    };
    p.advance(&mut g, bought);
    assert_eq!((p.place, p.ask), (0, LineAsk::Sell { qty: b(0.2997), price: b(95.0) }));
    assert!(p.was_read);
    p.advance(&mut g, GridReply::Placed(Some(12)));
    assert_eq!((p.place, p.ask), (1, LineAsk::Buy { price: b(95.0) }));
    assert!(!p.was_read);
    assert_eq!(g.open_order_ids(), vec![12]);
}

#[test]
fn a_grid_is_started_from_the_lowest_step() {
    let mut g = grid();
    assert_eq!(start_grid(&g), StartAsk::Buy { place: 0, price: b(90.0) });
    let next = start_step(&mut g, 0, Some(21));
    assert_eq!(next, StartAsk::Buy { place: 1, price: b(95.0) });
    assert_eq!(start_step(&mut g, 1, Some(22)), StartAsk::Done);
    assert_eq!(g.open_order_ids(), vec![21, 22]);
    let one = LiveGrid::new("ACTUSDT", vec![b(90.0)], 0, 0, 0, 0);
    assert_eq!(start_grid(&one), StartAsk::Done);
}

#[test]
fn a_refused_start_is_undone() {
    let mut g = grid();
    start_step(&mut g, 0, Some(21));
    assert_eq!(start_step(&mut g, 1, None), StartAsk::Undo { ids: vec![21] });
    assert_eq!(start_step(&mut grid(), 0, None), StartAsk::Undo { ids: vec![] });
}
