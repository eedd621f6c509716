use matrix_quant::decimal::Dec;
use matrix_quant::guardian::{
    align_to_tick, closed_report, find_stop, held_minutes, is_live, leftover_stops, live_positions,
    Ask, ExistingStop, GuardConfig, GuardState, Held, Notice, Patrol, Phase, Reply, Start, Thresholds,
};
use matrix_quant::side::Side;

fn d(s: &str) -> Dec {
    Dec::read(s).unwrap()
}

fn defaults() -> GuardConfig {
    GuardConfig::read(None, None, None, None, None, None, None)
}

fn held(amt: &str, entry: &str, mark: &str, lev: &str) -> Held {
    Held { amt: d(amt), entry: d(entry), upnl: d("1.236"), mark: d(mark), lev: d(lev) }
}

fn begin(cfg: GuardConfig, h: Held, minutes: u64, st: GuardState) -> (Patrol, Vec<Notice>) {
    match Patrol::begin(cfg, h, Some(d("0.1")), minutes, st) {
        Start::Round(p, n) => (p, n),
        _ => panic!("no round"),
    }
}

fn stop(id: u64, trigger: &str) -> Reply {
    Reply::Orders(Some(ExistingStop { id: Some(id), trigger: Some(d(trigger)) }))
}

fn armed_state() -> GuardState {
    let cfg = defaults();
    let (p, _) = begin(cfg, held("1", "100", "100", "10"), 0, GuardState::new());
    let (p, _) = p.advance(Reply::Orders(None)).unwrap();
    let (p, _) = p.advance(Reply::Placed(7)).unwrap();
    let (p, _) = begin(cfg, held("1", "100", "103", "10"), 0, p.state);
    p.state
}

#[test]
fn settings_have_defaults() {
    let c = defaults();
    assert!(c.enabled && c.trail_on);
    assert_eq!(c.stop_roe.text(), "50");
    assert_eq!(c.arm_roe.text(), "20");
    assert_eq!(c.trail_roe.text(), "15");
    assert_eq!((c.alert_min, c.auto_close_min), (30, 0));
}

#[test]
fn settings_are_read() {
    let c = GuardConfig::read(
        Some("0"),
        Some("30.5"),
        Some("12"),
        Some("bad"),
        Some("1"),
        Some("x"),
        Some("7"),
    );
    assert!(!c.enabled && c.trail_on);
    assert_eq!(c.stop_roe.text(), "30.5");
    assert_eq!((c.alert_min, c.auto_close_min), (12, 0));
    assert_eq!(c.arm_roe.text(), "20");
    assert_eq!(c.trail_roe.text(), "7");
}

#[test]
fn thresholds_are_divided_by_the_leverage() {
    let th = Thresholds::new(defaults(), d("20")).unwrap();
    assert!(th.stop_pct.equals(d("2.5")));
    assert!(th.arm_pct.equals(d("1")));
    assert!(th.trail_pct.equals(d("0.75")));
    assert_eq!(Thresholds::new(defaults(), d("0.5")).unwrap().lev.text(), "1");
}

#[test]
fn prices_are_brought_to_the_grid() {
    assert_eq!(align_to_tick(d("101.455"), Some(d("0.1")), true).unwrap().text(), "101.4");
    assert_eq!(align_to_tick(d("101.455"), Some(d("0.1")), false).unwrap().text(), "101.5");
    assert_eq!(align_to_tick(d("1.23456789"), None, true).unwrap().text(), "1.234568");
    assert_eq!(align_to_tick(d("1.23456789"), Some(d("0")), true).unwrap().text(), "1.234568");
}

#[test]
fn a_bare_position_gets_a_stop() {
    let (p, notices) = begin(defaults(), held("1", "100", "100", "10"), 0, GuardState::new());
    assert!(notices.is_empty());
    assert!(matches!(p.ask(), Ask::ReadOrders));
    let (p, _) = p.advance(Reply::Orders(None)).unwrap();
    match p.ask() {
        Ask::PlaceStop { side, price } => {
            assert_eq!(side, Side::Sell);
            assert_eq!(price.text(), "95");
        }
        _ => panic!("no stop"),
    }
    let (p, notices) = p.advance(Reply::Placed(7)).unwrap();
    assert_eq!(p.state.own_stop_id, Some(7));
    assert_eq!(p.state.stop_price.text(), "95.0");
    match notices[0] {
        Notice::Protected { stop, est_loss } => {
            assert_eq!((stop.text().as_str(), est_loss.text().as_str()), ("95", "5"));
        }
        _ => panic!("other notice"),
    }
    assert!(matches!(p.ask(), Ask::Store));
}

#[test]
fn a_short_position_is_stopped_above() {
    let (p, _) = begin(defaults(), held("-2", "100", "100", "10"), 0, GuardState::new());
    let (p, _) = p.advance(Reply::Orders(None)).unwrap();
    match p.ask() {
        Ask::PlaceStop { side, price } => {
            assert_eq!(side, Side::Buy);
            assert_eq!(price.text(), "105");
        }
        _ => panic!("no stop"),
    }
}

#[test]
fn milestones_come_once_and_the_stop_follows() {
    let cfg = defaults();
    let (p, _) = begin(cfg, held("1", "100", "100", "10"), 0, GuardState::new());
    let (p, _) = p.advance(Reply::Orders(None)).unwrap();
    let (p, _) = p.advance(Reply::Placed(7)).unwrap();
    let (p, notices) = begin(cfg, held("1", "100", "103", "10"), 0, p.state);
    let levels: Vec<i32> = notices
        .iter()
        .filter_map(|n| if let Notice::Milestone { level } = n { Some(*level) } else { None })
        .collect();
    assert_eq!(levels, vec![10, 15, 20, 25, 30]);
    match notices[5] {
        Notice::Armed { profit_roe, floor } => {
            assert_eq!(profit_roe.text(), "30");
            assert_eq!(floor.text(), "101.455");
        }
        _ => panic!("not armed"),
    }
    let (_, again) = begin(cfg, held("1", "100", "103", "10"), 0, p.state);
    assert!(again.is_empty());
    let (_, higher) = begin(cfg, held("1", "100", "104", "10"), 0, p.state);
    assert_eq!(higher.len(), 1);
}

#[test]
fn the_old_stop_goes_after_the_new_one_stands() {
    let (p, _) = begin(defaults(), held("1", "100", "103", "10"), 0, armed_state());
    let (p, _) = p.advance(stop(7, "95")).unwrap();
    match p.ask() {
        Ask::PlaceStop { price, .. } => assert_eq!(price.text(), "101.4"),
        _ => panic!("no stop"),
    }
    let (p, notices) = p.advance(Reply::Placed(8)).unwrap();
    match notices[0] {
        Notice::StopMoved { stop, locked } => {
            assert_eq!((stop.text().as_str(), locked.text().as_str()), ("101.4", "1.4"));
        }
        _ => panic!("other notice"),
    }
    assert!(matches!(p.ask(), Ask::Cancel { id: 7 }));
    let (p, _) = p.advance(Reply::Done).unwrap();
    assert!(matches!(p.ask(), Ask::Store));
    assert_eq!(p.state.own_stop_id, Some(8));
}

#[test]
fn the_stop_never_goes_back() {
    let mut st = armed_state();
    st.own_stop_id = Some(8);
    st.stop_price = d("101.4");
    let (p, _) = begin(defaults(), held("1", "100", "101", "10"), 0, st);
    assert_eq!(p.state.peak.text(), "103");
    let (p, notices) = p.advance(stop(8, "101.4")).unwrap();
    assert!(matches!(p.ask(), Ask::Store) && notices.is_empty());
    assert_eq!(p.state.stop_price.text(), "101.4");
}

#[test]
fn a_refused_replacement_keeps_the_old_stop_and_is_told_in_the_third_round() {
    let mut st = armed_state();
    let mut told = 0;
    for _ in 0..3 {
        let (p, _) = begin(defaults(), held("1", "100", "103", "10"), 0, st);
        let (p, _) = p.advance(stop(7, "95")).unwrap();
        let (p, notices) = p.advance(Reply::Refused).unwrap();
        assert_eq!(p.state.own_stop_id, Some(7));
        assert_eq!(p.state.stop_price.text(), "95.0");
        told += notices.len();
        st = p.state;
        if st.ratchet_stuck_cycles == 3 {
            assert!(matches!(notices[0], Notice::RatchetStuck { cycles: 3, .. }));
        }
    }
    assert_eq!((told, st.ratchet_stuck_cycles), (1, 3));
}

#[test]
fn a_refused_first_stop_is_told_once() {
    let (p, _) = begin(defaults(), held("1", "100", "100", "10"), 0, GuardState::new());
    let (p, _) = p.advance(Reply::Orders(None)).unwrap();
    let (p, notices) = p.advance(Reply::Refused).unwrap();
    assert!(matches!(notices[0], Notice::Unprotected));
    let (p, _) = begin(defaults(), held("1", "100", "100", "10"), 0, p.state);
    let (p, _) = p.advance(Reply::Orders(None)).unwrap();
    let (_, notices) = p.advance(Reply::Refused).unwrap();
    assert!(notices.is_empty());
}

#[test]
fn a_stop_on_the_exchange_is_taken_over() {
    let (p, _) = begin(defaults(), held("1", "100", "100", "10"), 0, GuardState::new());
    let (p, _) = p.advance(stop(42, "94.9")).unwrap();
    assert_eq!(p.state.own_stop_id, Some(42));
    assert_eq!(p.state.stop_price.text(), "94.9");
    assert_eq!(p.state.entry_used.text(), "100");
}

#[test]
fn a_moved_entry_price_moves_the_stop() {
    let mut st = GuardState::new();
    st.own_stop_id = Some(5);
    st.stop_price = d("95");
    st.entry_used = d("100");
    let (p, _) = begin(defaults(), held("1", "99", "99", "10"), 0, st);
    let (p, _) = p.advance(stop(5, "95")).unwrap();
    match p.phase {
        Phase::Placing(plan) => {
            assert_eq!(plan.replace, Some(5));
            assert_eq!(plan.desired.text(), "94.0");
        }
        _ => panic!("not placing"),
    }
}

#[test]
fn reminders_come_every_half_hour() {
    let cfg = defaults();
    let mut st = GuardState::new();
    let mut told = Vec::new();
    for minutes in [29u64, 30, 45, 59, 60, 91] {
        let (p, _) = begin(cfg, held("1", "100", "100", "10"), minutes, st);
        let (p, notices) = p.advance(Reply::OrdersUnknown).unwrap();
        if let Some(Notice::HeldTooLong { minutes, upnl }) = notices.first() {
            assert_eq!(upnl.text(), "1.24");
            told.push(*minutes);
        }
        st = p.state;
    }
    assert_eq!(told, vec![30, 60, 91]);
}

#[test]
fn an_old_position_is_closed_where_that_is_set() {
    let cfg = GuardConfig::read(None, None, Some("0"), Some("60"), None, None, None);
    let (p, _) = begin(cfg, held("-1.50", "100", "100", "10"), 60, GuardState::new());
    let (p, _) = p.advance(Reply::OrdersUnknown).unwrap();
    match p.ask() {
        Ask::ClosePosition { side, qty } => {
            assert_eq!(side, Side::Buy);
            assert_eq!(qty.text(), "1.5");
        }
        _ => panic!("not closing"),
    }
    let (q, notices) = p.advance(Reply::Refused).unwrap();
    assert!(!q.state.auto_close_attempted && matches!(notices[0], Notice::AutoCloseFailed));
    let (q, notices) = p.advance(Reply::Done).unwrap();
    assert!(q.state.auto_close_attempted);
    assert!(matches!(notices[0], Notice::AutoClosed { minutes: 60, .. }));
    let (r, _) = begin(cfg, held("-1.50", "100", "100", "10"), 61, q.state);
    let (r, _) = r.advance(Reply::OrdersUnknown).unwrap();
    assert!(matches!(r.ask(), Ask::Store));
}

#[test]
fn a_reply_out_of_turn_changes_nothing() {
    let (p, _) = begin(defaults(), held("1", "100", "100", "10"), 0, GuardState::new());
    let (q, notices) = p.advance(Reply::Placed(3)).unwrap();
    assert!(matches!(q.ask(), Ask::ReadOrders) && notices.is_empty());
    assert_eq!(q.state.own_stop_id, None);
}

#[test]
fn a_position_without_entry_price_is_passed_over() {
    assert!(matches!(
        Patrol::begin(defaults(), held("1", "0", "100", "10"), None, 0, GuardState::new()),
        Start::Skipped
    ));
    let far = held("1", "0.0000000000000000000000000001", "79228162514264337593543950335", "10");
    assert!(matches!(
        Patrol::begin(defaults(), far, None, 0, GuardState::new()),
        Start::OutOfRange
    ));
}

#[test]
fn a_trailing_stop_keeps_the_profit() {
    for (amt, mark) in [("1", "102"), ("-1", "98")] {
        let (p, _) = begin(defaults(), held(amt, "100", mark, "10"), 0, GuardState::new());
        assert!(p.state.trail_armed);
        let (p, _) = p.advance(Reply::Orders(None)).unwrap();
        if let Ask::PlaceStop { side, price } = p.ask() {
            match side {
                Side::Sell => assert!(!price.below(d("100"))),
                Side::Buy => assert!(!price.above(d("100"))),
            }
        } else {
            panic!("no stop");
        }
    }
}

#[test]
fn giving_back_almost_all_stops_at_the_entry_price() {
    for (mark, lev, arm, trail) in [("102", "10", "20.0", "19.9"), ("120", "1", "20", "19")] {
        let cfg = GuardConfig::read(None, None, None, None, None, Some(arm), Some(trail));
        let (p, told) = begin(cfg, held("1", "100", mark, lev), 0, GuardState::new());
        assert!(told.iter().any(
            |n| matches!(n, Notice::Armed { floor, .. } if floor.equals(d("100")))
        ));
        let (p, _) = p.advance(Reply::Orders(None)).unwrap();
        if let Ask::PlaceStop { price, .. } = p.ask() {
            assert!(price.equals(d("100")));
        } else {
            panic!("no stop");
        }
    }
}

#[test]
fn a_stop_that_arms_below_what_it_gives_back_stays_on_its_line() {
    for (amt, mark, line) in [("1", "110", "93.5"), ("-1", "90", "103.5")] {
        let cfg = GuardConfig::read(None, None, None, None, None, Some("10"), Some("15"));
        let (p, told) = begin(cfg, held(amt, "100", mark, "1"), 0, GuardState::new());
        assert!(told.iter().any(
            |n| matches!(n, Notice::Armed { floor, .. } if floor.equals(d(line)))
        ));
        let (p, _) = p.advance(Reply::Orders(None)).unwrap();
        if let Ask::PlaceStop { price, .. } = p.ask() {
            assert!(price.equals(d(line)));
        } else {
            panic!("no stop");
        }
    }
}

#[test]
fn a_price_on_the_grid_stays() {
    for down in [true, false] {
        let once = align_to_tick(d("101.455"), Some(d("0.1")), down).unwrap();
        assert!(align_to_tick(once, Some(d("0.1")), down).unwrap().equals(once));
    }
}

#[test]
fn positions_are_read_once_for_each_symbol() {
    let text = r#"[{"symbol":"A","positionAmt":"0.0"},
        {"symbol":"B","positionAmt":"1","entryPrice":"2","markPrice":"3","unRealizedProfit":"4","leverage":"5"},
        {"symbol":"C","positionAmt":"-1"},
        {"symbol":"B","positionAmt":"7"},
        {"positionAmt":5}]"#;
    let v = live_positions(text);
    assert_eq!(v.len(), 2);
    assert_eq!((v[0].symbol.as_str(), v[0].held.amt.text().as_str()), ("B", "7"));
    assert_eq!(v[0].held.lev.text(), "10");
    assert_eq!(v[1].symbol, "C");
    assert!(is_live(&v, "C") && !is_live(&v, "A"));
    assert!(live_positions("{}").is_empty() && live_positions("nonsense").is_empty());
}

#[test]
fn stops_are_found_among_the_orders() {
    let text = r#"[{"orderType":"LIMIT","closePosition":true,"algoId":1},
        {"orderType":"STOP_MARKET","closePosition":false,"algoId":2},
        {"orderType":"STOP_MARKET","closePosition":true,"algoId":3,"triggerPrice":"9.5"},
        {"orderType":"STOP_MARKET","closePosition":true,"algoId":4}]"#;
    let s = find_stop(text).unwrap();
    assert_eq!(s.id, Some(3));
    assert_eq!(s.trigger.unwrap().text(), "9.5");
    assert_eq!(leftover_stops(text), vec![3, 4]);
    assert!(find_stop("[]").is_none());
}

#[test]
fn a_closed_position_is_reported() {
    let income = r#"[{"symbol":"A","incomeType":"REALIZED_PNL","income":"1.50"},
        {"symbol":"A","incomeType":"REALIZED_PNL","income":"-0.255"},
        {"symbol":"A","incomeType":"COMMISSION","asset":"USDT","income":"-0.125"},
        {"symbol":"A","incomeType":"COMMISSION","asset":"BNB","income":"-9"},
        {"symbol":"B","incomeType":"REALIZED_PNL","income":"100"}]"#;
    let r = closed_report(income, "A", 60_000, 200_000, true).unwrap();
    assert_eq!(r.minutes, 2);
    assert_eq!(r.realized.text(), "1.24");
    assert!(r.gain && r.trailed);
    assert_eq!(r.fee.unwrap().text(), "-0.12");
    assert!(closed_report(income, "A", 0, 1, false).is_none());
    assert!(closed_report("{}", "A", 1, 1, false).is_none());
    let none = closed_report("[]", "A", 5, 1, false).unwrap();
    assert_eq!((none.minutes, none.fee.is_none()), (0, true));
    assert_eq!(held_minutes(0, 119_999), 1);
}
