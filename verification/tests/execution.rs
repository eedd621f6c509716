use matrix_quant::decimal::Dec;
use matrix_quant::execution::{
    cancel_reply, exchange_info_reply, find_info, funding_reply, generate_signature, kline_reply,
    leverage_reply, limit_order_reply, margin_type_reply, order_reply, stop_reply,
    BinanceExecutionClient, ExchangeError, IncomeReader, IncomeSummary, Method, PageEnd,
};
use matrix_quant::json::{parse_json, parse_list, Json};

fn d(s: &str) -> Dec {
    Dec::read(s).unwrap()
}

fn client() -> BinanceExecutionClient {
    BinanceExecutionClient::new("k", "key", Some("http://x"))
}

#[test]
fn signatures_are_those_of_hmac() {
    assert_eq!(
        generate_signature("key", "The quick brown fox jumps over the lazy dog"),
        "f7bc83f430538424b13298e6aa6fb143ef4d59a14946175997479dbc2d1a3cd8"
    );
    assert_eq!(
        generate_signature("", ""),
        "b613679a0814d9ec772f95d778c35fc5ff1697c493715653c6c712144292c5ad"
    );
}

#[test]
fn the_main_address_is_the_default() {
    let c = BinanceExecutionClient::new("k", "s", None);
    assert_eq!(c.base_url, "https://fapi.binance.com");
    assert_eq!((c.api_key.as_str(), c.api_secret.as_str()), ("k", "s"));
}

fn payload(url: &str) -> String {
    let rest = url.split_once('?').unwrap().1;
    let (payload, signature) = rest.split_once("&signature=").unwrap();
    assert_eq!(signature, generate_signature("key", payload));
    payload.to_string()
}

#[test]
fn requests_are_signed() {
    let c = client();
    let r = c.set_leverage("A", 10, 5);
    assert!(r.with_key && r.method == Method::Post);
    assert!(r.url.starts_with("http://x/fapi/v1/leverage?"));
    assert_eq!(payload(&r.url), "symbol=A&leverage=10&recvWindow=60000&timestamp=5");
    let r = c.set_margin_type("A", "ISOLATED", 5);
    assert_eq!(payload(&r.url), "symbol=A&marginType=ISOLATED&recvWindow=60000&timestamp=5");
    let r = c.place_order("A", "BUY", "MARKET", "1.5", true, 5);
    assert_eq!(
        payload(&r.url),
        "symbol=A&side=BUY&type=MARKET&quantity=1.5&reduceOnly=true&recvWindow=60000&timestamp=5"
    );
    let r = c.place_limit_order("A", "SELL", "1", "2", 5);
    assert_eq!(
        payload(&r.url),
        "symbol=A&side=SELL&type=LIMIT&quantity=1&price=2&timeInForce=GTC&recvWindow=60000&timestamp=5"
    );
    let r = c.place_stop_market_close("A", "SELL", "9", 5);
    assert_eq!(
        payload(&r.url),
        "symbol=A&side=SELL&type=STOP_MARKET&closePosition=true&stopPrice=9&workingType=MARK_PRICE&recvWindow=60000&timestamp=5"
    );
    let r = c.get_open_orders("A", 5);
    assert_eq!((r.method, payload(&r.url)), (Method::Get, "symbol=A&recvWindow=60000&timestamp=5".into()));
    assert!(c.get_open_algo_orders("A", 5).url.contains("/fapi/v1/openAlgoOrders?symbol=A&"));
    let r = c.cancel_order("A", 77, 5);
    assert_eq!(
        (r.method, payload(&r.url)),
        (Method::Delete, "symbol=A&orderId=77&recvWindow=60000&timestamp=5".into())
    );
    assert_eq!(payload(&c.cancel_algo_order(8, 5).url), "algoId=8&recvWindow=60000&timestamp=5");
    assert_eq!(payload(&c.check_account(5).url), "recvWindow=60000&timestamp=5");
    assert!(c.check_positions(5).url.contains("/fapi/v2/positionRisk?recvWindow=60000&timestamp=5&"));
    assert_eq!(
        payload(&c.get_income_history(1, 2, 5).url),
        "startTime=1&endTime=2&limit=1000&recvWindow=60000&timestamp=5"
    );
    assert_eq!(payload(&c.get_user_trades("A", None, None, 5).url), "symbol=A&timestamp=5");
    assert_eq!(
        payload(&c.get_user_trades("A", Some(3), Some(4), 5).url),
        "symbol=A&timestamp=5&limit=3&startTime=4"
    );
}

#[test]
fn public_requests_are_not_signed() {
    let c = client();
    let r = c.fetch_funding_rate("A");
    assert_eq!((r.url.as_str(), r.with_key), ("http://x/fapi/v1/premiumIndex?symbol=A", false));
    assert_eq!(
        c.fetch_kline_open_price("A", "5m").url,
        "http://x/fapi/v1/klines?symbol=A&interval=5m&limit=2"
    );
    assert_eq!(c.fetch_exchange_info().url, "http://x/fapi/v1/exchangeInfo");
}

#[test]
fn replies_to_orders() {
    assert_eq!(order_reply(true, r#"{"avgPrice":"12.50"}"#).ok().unwrap().text(), "12.50");
    assert_eq!(order_reply(true, r#"{"avgPrice":"-1"}"#).ok().unwrap().text(), "0");
    assert_eq!(order_reply(true, "{}").ok().unwrap().text(), "0");
    assert!(matches!(order_reply(true, "no"), Err(ExchangeError::NotJson(_))));
    match order_reply(false, "why") {
        Err(e) => assert_eq!(e.message(), "下单失败: why"),
        Ok(_) => panic!("accepted"),
    }
    assert_eq!(limit_order_reply(true, "t").ok().unwrap(), "t");
    match limit_order_reply(false, "t") {
        Err(e) => assert_eq!(e.message(), "限价单下单失败: t"),
        Ok(_) => panic!("accepted"),
    }
    assert_eq!(stop_reply(true, r#"{"orderId":7}"#).ok(), Some(7));
    assert!(matches!(stop_reply(true, "?"), Err(ExchangeError::NotJson(_))));
    match stop_reply(true, "{}") {
        Err(e) => assert_eq!(e.message(), "下单成功但无 orderId: {}"),
        Ok(_) => panic!("accepted"),
    }
    match stop_reply(false, "e") {
        Err(e) => assert_eq!(e.message(), "挂止损单失败: e"),
        Ok(_) => panic!("accepted"),
    }
    assert!(cancel_reply(true, "").is_ok());
    assert_eq!(cancel_reply(false, "e").err().unwrap().message(), "撤单失败: e");
}

#[test]
fn replies_to_settings() {
    assert!(leverage_reply(true, "").is_ok());
    assert_eq!(leverage_reply(false, "e").err().unwrap().message(), "设置杠杆失败: e");
    assert!(margin_type_reply(true, "").is_ok());
    assert!(margin_type_reply(false, r#"{"code":-4046}"#).is_ok());
    assert_eq!(margin_type_reply(false, "e").err().unwrap().message(), "设置保证金模式失败: e");
}

#[test]
fn replies_with_prices() {
    assert_eq!(funding_reply(200, r#"{"lastFundingRate":"0.0001"}"#).ok().unwrap().text(), "0.0001");
    assert_eq!(funding_reply(200, r#"{"lastFundingRate":1}"#).ok().unwrap().text(), "0");
    assert!(matches!(funding_reply(404, "{}"), Err(ExchangeError::FundingStatus(404))));
    assert!(matches!(funding_reply(200, "?"), Err(ExchangeError::NotJson(_))));
    assert_eq!(kline_reply(true, r#"[[1,"2.5","3"],[4,"5"]]"#).ok().unwrap().text(), "2.5");
    assert_eq!(kline_reply(true, r#"[[1,"x"]]"#).ok().unwrap().text(), "0");
    assert!(matches!(kline_reply(true, "[]"), Err(ExchangeError::KlineShape)));
    assert!(matches!(kline_reply(true, "{}"), Err(ExchangeError::KlineShape)));
    assert!(matches!(kline_reply(true, "?"), Err(ExchangeError::NotJson(_))));
    assert_eq!(kline_reply(false, "e").err().unwrap().message(), "获取K线失败: e");
    assert_eq!(ExchangeError::KlineShape.message(), "无法解析 K 线数据");
    assert_eq!(ExchangeError::FundingStatus(503).message(), "获取资金费率失败: 503");
}

#[test]
fn rules_are_read_for_each_symbol() {
    let text = r#"{"symbols":[
        {"symbol":"A","filters":[{"filterType":"LOT_SIZE","stepSize":"0.001"},{"filterType":"PRICE_FILTER","tickSize":"0.10"}]},
        {"symbol":"B"},
        {"filters":[]},
        {"symbol":"A","filters":[{"filterType":"LOT_SIZE","stepSize":"bad"},{"filterType":"PRICE_FILTER"}]}]}"#;
    let v = exchange_info_reply(true, text).ok().unwrap();
    assert_eq!(v.len(), 2);
    assert_eq!((v[0].symbol.as_str(), v[0].step_size.text().as_str()), ("A", "1"));
    assert_eq!(v[0].tick_size.text(), "1");
    assert_eq!(find_info(&v, "B"), Some(1));
    assert_eq!(find_info(&v, "C"), None);
    let one = exchange_info_reply(
        true,
        r#"{"symbols":[{"symbol":"A","filters":[{"filterType":"LOT_SIZE","stepSize":"0.001"},{"filterType":"PRICE_FILTER","tickSize":"0.10"}]}]}"#,
    )
    .ok()
    .unwrap();
    assert_eq!(
        (one[0].step_size.text().as_str(), one[0].tick_size.text().as_str()),
        ("0.001", "0.10")
    );
    assert!(exchange_info_reply(true, "{}").ok().unwrap().is_empty());
    assert!(matches!(exchange_info_reply(true, "?"), Err(ExchangeError::NotJson(_))));
    assert_eq!(
        exchange_info_reply(false, "").err().unwrap().message(),
        "Failed to fetch exchange info"
    );
}

#[test]
fn income_is_counted_once() {
    let mut r = IncomeReader::new(100);
    let page = r#"[
        {"tranId":1,"incomeType":"REALIZED_PNL","income":"5","time":200},
        {"tranId":1,"incomeType":"COMMISSION","income":"-1","time":210},
        {"tranId":"1","incomeType":"COMMISSION","income":"-1","time":999},
        {"tranId":2,"incomeType":"FUNDING_FEE","income":"-0.5","time":150},
        {"incomeType":"REALIZED_PNL","income":"2"},
        {"incomeType":"TRANSFER","income":"1000","tranId":9}]"#;
    assert_eq!(r.take_page(page).ok(), Some(PageEnd::Complete));
    let s = r.summary;
    assert_eq!(
        vec![s.realized_pnl.text(), s.commission.text(), s.funding_fee.text()],
        vec!["7", "-1", "-0.5"]
    );
    assert_eq!((s.trades_count, s.records_processed), (2, 5));
    assert_eq!(s.net().unwrap().text(), "5.5");
    assert_eq!(r.take_page(page).ok(), Some(PageEnd::Complete));
    assert_eq!(r.summary.realized_pnl.text(), "9");
    assert_eq!(r.summary.commission.text(), "-1");
}

#[test]
fn a_full_page_is_followed_by_another() {
    let mut rows = Vec::new();
    for i in 0..1000u32 {
        rows.push(format!(
            "{{\"tranId\":{},\"incomeType\":\"REALIZED_PNL\",\"income\":\"0.01\",\"time\":{}}}",
            i,
            1000 + i
        ));
    }
    let page = format!("[{}]", rows.join(","));
    let mut r = IncomeReader::new(5);
    assert_eq!(r.take_page(&page).ok(), Some(PageEnd::More));
    assert_eq!(r.current_start, 1999);
    assert_eq!(r.take_page(&page).ok(), Some(PageEnd::Complete));
    assert_eq!(r.summary.realized_pnl.text(), "10.00");
    assert_eq!(r.summary.trades_count, 1000);
    assert_eq!(r.take_page("[]").ok(), Some(PageEnd::Complete));
}

#[test]
fn where_pages_are_cut_makes_no_difference() {
    let rows = [
        r#"{"tranId":1,"incomeType":"REALIZED_PNL","income":"5","time":200}"#,
        r#"{"tranId":1,"incomeType":"COMMISSION","income":"-1","time":210}"#,
        r#"{"tranId":1,"incomeType":"COMMISSION","income":"-1","time":210}"#,
        r#"{"tranId":2,"incomeType":"FUNDING_FEE","income":"0.5","time":220}"#,
    ];
    let mut whole = IncomeReader::new(0);
    assert!(whole.take_page(&format!("[{}]", rows.join(","))).is_ok());
    for cut in 0..=rows.len() {
        let mut r = IncomeReader::new(0);
        for part in [&rows[..cut], &rows[cut..]] {
            assert!(r.take_page(&format!("[{}]", part.join(","))).is_ok());
        }
        assert!(r.summary.net().unwrap().equals(d("4.5")));
        assert_eq!(r.summary.records_processed, whole.summary.records_processed);
    }
}

#[test]
fn bad_income_changes_nothing() {
    let mut r = IncomeReader::new(5);
    assert!(matches!(r.take_page("{}"), Err(ExchangeError::IncomeShape)));
    let most = "79228162514264337593543950335";
    let page = format!(
        "[{{\"incomeType\":\"COMMISSION\",\"income\":\"{}\"}},{{\"incomeType\":\"COMMISSION\",\"income\":\"1\"}}]",
        most
    );
    assert!(matches!(r.take_page(&page), Err(ExchangeError::OutOfRange)));
    assert_eq!(r.summary.commission.text(), "0");
    let mut s = IncomeSummary::new();
    s.realized_pnl = d(most);
    s.commission = d("1");
    assert!(s.net().is_none());
}

#[test]
fn json_values_are_read() {
    let j = parse_json(r#"{"a":null,"b":true,"n":-5,"u":18446744073709551615,"f":1.50,"t":"x","l":["y",1]}"#)
        .unwrap();
    assert!(matches!(j.field("a"), Some(Json::Null)));
    assert_eq!(j.bool_field("b"), Some(true));
    assert_eq!((j.u64_field("n"), j.i64_field("n")), (None, Some(-5)));
    assert_eq!((j.u64_field("u"), j.i64_field("u")), (Some(u64::MAX), None));
    assert_eq!((j.u64_field("f"), j.i64_field("f")), (None, None));
    match j.field("f") {
        Some(Json::Number { text, .. }) => assert_eq!(text, "1.5"),
        _ => panic!("no number"),
    }
    assert_eq!(j.text_field("t"), Some("x"));
    assert_eq!(j.text_field("n"), None);
    assert_eq!(j.list_field("l").unwrap()[0].field("z").is_none(), true);
    assert_eq!(j.field("l").unwrap().item_text(0), Some("y"));
    assert_eq!(j.field("l").unwrap().item_text(1), None);
    assert_eq!(j.field("l").unwrap().item_text(2), None);
    assert!(j.field("missing").is_none());
    assert_eq!(parse_json(r#"{"k":1,"k":2}"#).unwrap().u64_field("k"), Some(2));
    assert!(parse_json("{").is_none());
    assert!(parse_list("{}").is_none());
    assert_eq!(parse_list("[1,2]").unwrap().len(), 2);
}
