//! What is asked of the derivatives exchange, and what its replies say: signed requests, orders,
//! positions, income, prices and the rules of the symbols.

use hmac::{Hmac, KeyInit, Mac};
use sha2::Sha256;
use vstd::prelude::*;
use vstd::utf8::encode_utf8;

use crate::decimal::{
    arithmetic, dec_of_text, distance, fits, lemma_lands, lemma_lit, lemma_sum, lemma_units_sign,
    lit, or_else, parse_dec, rounded, sum, zero, Dec,
};
use crate::json::{
    json_fault, json_of_text, list_of_text, parse_list, read_json, views, Json, JsonView,
};
use crate::text::{contains, digits, holds, number_text, numeral_round_trip, same, texts};

verus! {

/// The code that HMAC with SHA-256 gives to a message under a key.
pub uninterp spec fn hmac_of(key: Seq<u8>, message: Seq<u8>) -> Seq<u8>;

/// `Hmac::<Sha256>`: the 32 bytes of the code of a message under a key of any length.
#[verifier::external_body]
pub(crate) fn hmac_sha256(key: &[u8], message: &[u8]) -> (r: Vec<u8>)
    ensures
        r@ == hmac_of(key@, message@),
        r@.len() == 32,
{
    let mut mac = Hmac::<Sha256>::new_from_slice(key).unwrap();
    mac.update(message);
    mac.finalize().into_bytes().to_vec()
}

/// The character of a hexadecimal digit.
pub open spec fn hex_digit(n: int) -> char {
    if n < 10 { (48 + n) as char } else { (87 + n) as char }
}

/// Bytes as hexadecimal digits, two for each byte.
pub open spec fn hex_of(bytes: Seq<u8>) -> Seq<char> {
    Seq::new(
        2 * bytes.len(),
        |i: int|
            if i % 2 == 0 {
                hex_digit(bytes[i / 2] as int / 16)
            } else {
                hex_digit(bytes[i / 2] as int % 16)
            },
    )
}

/// `hex::encode`: two lower case hexadecimal digits for each byte.
#[verifier::external_body]
pub(crate) fn hex_encode(bytes: &[u8]) -> (r: String)
    ensures
        r@ == hex_of(bytes@),
{
    hex::encode(bytes)
}

/// The signature of a request.
pub open spec fn signature_of(secret: Seq<char>, payload: Seq<char>) -> Seq<char> {
    hex_of(hmac_of(encode_utf8(secret), encode_utf8(payload)))
}

/// Signs a request.
pub fn generate_signature(secret: &str, payload: &str) -> (r: String)
    ensures
        r@ == signature_of(secret@, payload@),
        r@.len() == 64,
{
    let code = hmac_sha256(secret.as_bytes(), payload.as_bytes());
    hex_encode(code.as_slice())
}

/// How a request is sent.
#[derive(Clone, Copy, Debug, PartialEq, Eq, Structural)]
pub enum Method {
    Get,
    Post,
    Delete,
}

/// A request. Whether it carries the key of the account.
pub struct Request {
    pub method: Method,
    pub url: String,
    pub with_key: bool,
}

/// The address of a signed request.
pub open spec fn signed_url(
    base: Seq<char>,
    endpoint: Seq<char>,
    payload: Seq<char>,
    secret: Seq<char>,
) -> Seq<char> {
    base + endpoint + "?"@ + payload + "&signature="@ + signature_of(secret, payload)
}

/// The end of every payload: the window in which the request is valid, and its moment.
pub open spec fn stamp(timestamp: u64) -> Seq<char> {
    "&recvWindow=60000&timestamp="@ + digits(timestamp as nat)
}

/// A client of the exchange: the key and the secret of the account, and the address.
pub struct BinanceExecutionClient {
    pub api_key: String,
    pub api_secret: String,
    pub base_url: String,
}

/// What can go wrong with a request that was answered.
pub enum ExchangeError {
    Leverage(String),
    MarginType(String),
    Order(String),
    LimitOrder(String),
    Stop(String),
    StopWithoutId(String),
    Cancel(String),
    NotJson(String),
    FundingStatus(u16),
    Klines(String),
    KlineShape,
    ExchangeInfo,
    IncomeShape,
    OutOfRange,
}

impl ExchangeError {
    /// The words for the error.
    pub open spec fn words(self) -> Seq<char> {
        match self {
            ExchangeError::Leverage(t) => "设置杠杆失败: "@ + t@,
            ExchangeError::MarginType(t) => "设置保证金模式失败: "@ + t@,
            ExchangeError::Order(t) => "下单失败: "@ + t@,
            ExchangeError::LimitOrder(t) => "限价单下单失败: "@ + t@,
            ExchangeError::Stop(t) => "挂止损单失败: "@ + t@,
            ExchangeError::StopWithoutId(t) => "下单成功但无 orderId: "@ + t@,
            ExchangeError::Cancel(t) => "撤单失败: "@ + t@,
            ExchangeError::NotJson(why) => why@,
            ExchangeError::FundingStatus(n) => "获取资金费率失败: "@ + digits(n as nat),
            ExchangeError::Klines(t) => "获取K线失败: "@ + t@,
            ExchangeError::KlineShape => "无法解析 K 线数据"@,
            ExchangeError::ExchangeInfo => "Failed to fetch exchange info"@,
            ExchangeError::IncomeShape => "解析币安收益数据失败。可能是查询跨度超出限制或数据异常。"@,
            ExchangeError::OutOfRange => "figure out of range"@,
        }
    }

    /// The words for the error.
    pub fn message(&self) -> (r: String)
        ensures
            r@ == self.words(),
    {
        match self {
            ExchangeError::Leverage(t) => "设置杠杆失败: ".to_string().concat(t.as_str()),
            ExchangeError::MarginType(t) => "设置保证金模式失败: ".to_string().concat(t.as_str()),
            ExchangeError::Order(t) => "下单失败: ".to_string().concat(t.as_str()),
            ExchangeError::LimitOrder(t) => "限价单下单失败: ".to_string().concat(t.as_str()),
            ExchangeError::Stop(t) => "挂止损单失败: ".to_string().concat(t.as_str()),
            ExchangeError::StopWithoutId(t) => "下单成功但无 orderId: ".to_string().concat(
                t.as_str(),
            ),
            ExchangeError::Cancel(t) => "撤单失败: ".to_string().concat(t.as_str()),
            ExchangeError::NotJson(why) => why.as_str().to_string(),
            ExchangeError::FundingStatus(n) => "获取资金费率失败: ".to_string().concat(
                number_text(*n as u128).as_str(),
            ),
            ExchangeError::Klines(t) => "获取K线失败: ".to_string().concat(t.as_str()),
            ExchangeError::KlineShape => "无法解析 K 线数据".to_string(),
            ExchangeError::ExchangeInfo => "Failed to fetch exchange info".to_string(),
            ExchangeError::IncomeShape => "解析币安收益数据失败。可能是查询跨度超出限制或数据异常。".to_string(),
            ExchangeError::OutOfRange => "figure out of range".to_string(),
        }
    }
}

/// The word for a truth value.
pub open spec fn bool_word(b: bool) -> Seq<char> {
    if b { "true"@ } else { "false"@ }
}

impl BinanceExecutionClient {
    /// A client with a key and a secret, for an address or the exchange's main one.
    pub fn new(api_key: &str, api_secret: &str, base_url: Option<&str>) -> (r:
        BinanceExecutionClient)
        ensures
            r.api_key@ == api_key@,
            r.api_secret@ == api_secret@,
            r.base_url@ == (match base_url {
                Some(u) => u@,
                None => "https://fapi.binance.com"@,
            }),
    {
        let url = match base_url {
            Some(u) => u,
            None => "https://fapi.binance.com",
        };
        BinanceExecutionClient {
            api_key: api_key.to_string(),
            api_secret: api_secret.to_string(),
            base_url: url.to_string(),
        }
    }

    /// A signed request.
    pub open spec fn signed(
        &self,
        r: Request,
        method: Method,
        endpoint: Seq<char>,
        payload: Seq<char>,
    ) -> bool {
        &&& r.method == method
        &&& r.with_key
        &&& r.url@ == signed_url(self.base_url@, endpoint, payload, self.api_secret@)
    }

    fn sign(&self, method: Method, endpoint: &str, payload: &str) -> (r: Request)
        ensures
            self.signed(r, method, endpoint@, payload@),
    {
        let signature = generate_signature(self.api_secret.as_str(), payload);
        let mut url = self.base_url.clone();
        url.append(endpoint);
        url.append("?");
        url.append(payload);
        url.append("&signature=");
        url.append(signature.as_str());
        Request { method, url, with_key: true }
    }

    /// Asks for a leverage.
    pub fn set_leverage(&self, symbol: &str, leverage: u32, timestamp: u64) -> (r: Request)
        ensures
            self.signed(
                r,
                Method::Post,
                "/fapi/v1/leverage"@,
                "symbol="@ + symbol@ + "&leverage="@ + digits(leverage as nat) + stamp(timestamp),
            ),
    {
        let mut p = "symbol=".to_string();
        p.append(symbol);
        p.append("&leverage=");
        p.append(number_text(leverage as u128).as_str());
        p.append(stamp_text(timestamp).as_str());
        self.sign(Method::Post, "/fapi/v1/leverage", p.as_str())
    }

    /// Asks for a kind of margin.
    pub fn set_margin_type(&self, symbol: &str, margin_type: &str, timestamp: u64) -> (r: Request)
        ensures
            self.signed(
                r,
                Method::Post,
                "/fapi/v1/marginType"@,
                "symbol="@ + symbol@ + "&marginType="@ + margin_type@ + stamp(timestamp),
            ),
    {
        let mut p = "symbol=".to_string();
        p.append(symbol);
        p.append("&marginType=");
        p.append(margin_type);
        p.append(stamp_text(timestamp).as_str());
        self.sign(Method::Post, "/fapi/v1/marginType", p.as_str())
    }

    /// Places an order.
    pub fn place_order(
        &self,
        symbol: &str,
        side: &str,
        order_type: &str,
        quantity: &str,
        reduce_only: bool,
        timestamp: u64,
    ) -> (r: Request)
        ensures
            self.signed(
                r,
                Method::Post,
                "/fapi/v1/order"@,
                "symbol="@ + symbol@ + "&side="@ + side@ + "&type="@ + order_type@ + "&quantity="@
                    + quantity@ + "&reduceOnly="@ + bool_word(reduce_only) + stamp(timestamp),
            ),
    {
        let mut p = "symbol=".to_string();
        p.append(symbol);
        p.append("&side=");
        p.append(side);
        p.append("&type=");
        p.append(order_type);
        p.append("&quantity=");
        p.append(quantity);
        p.append("&reduceOnly=");
        p.append(if reduce_only { "true" } else { "false" });
        p.append(stamp_text(timestamp).as_str());
        self.sign(Method::Post, "/fapi/v1/order", p.as_str())
    }

    /// Places an order with a limit, good till cancelled.
    pub fn place_limit_order(
        &self,
        symbol: &str,
        side: &str,
        quantity: &str,
        price: &str,
        timestamp: u64,
    ) -> (r: Request)
        ensures
            self.signed(
                r,
                Method::Post,
                "/fapi/v1/order"@,
                "symbol="@ + symbol@ + "&side="@ + side@ + "&type=LIMIT&quantity="@ + quantity@
                    + "&price="@ + price@ + "&timeInForce=GTC"@ + stamp(timestamp),
            ),
    {
        let mut p = "symbol=".to_string();
        p.append(symbol);
        p.append("&side=");
        p.append(side);
        p.append("&type=LIMIT&quantity=");
        p.append(quantity);
        p.append("&price=");
        p.append(price);
        p.append("&timeInForce=GTC");
        p.append(stamp_text(timestamp).as_str());
        self.sign(Method::Post, "/fapi/v1/order", p.as_str())
    }

    /// Places a stop order that closes the whole position at the market once the mark price is
    /// reached. It can only reduce the position.
    pub fn place_stop_market_close(
        &self,
        symbol: &str,
        side: &str,
        stop_price: &str,
        timestamp: u64,
    ) -> (r: Request)
        ensures
            self.signed(
                r,
                Method::Post,
                "/fapi/v1/order"@,
                "symbol="@ + symbol@ + "&side="@ + side@
                    + "&type=STOP_MARKET&closePosition=true&stopPrice="@ + stop_price@
                    + "&workingType=MARK_PRICE"@ + stamp(timestamp),
            ),
    {
        let mut p = "symbol=".to_string();
        p.append(symbol);
        p.append("&side=");
        p.append(side);
        p.append("&type=STOP_MARKET&closePosition=true&stopPrice=");
        p.append(stop_price);
        p.append("&workingType=MARK_PRICE");
        p.append(stamp_text(timestamp).as_str());
        self.sign(Method::Post, "/fapi/v1/order", p.as_str())
    }

    /// Asks for the open orders of a symbol.
    pub fn get_open_orders(&self, symbol: &str, timestamp: u64) -> (r: Request)
        ensures
            self.signed(
                r,
                Method::Get,
                "/fapi/v1/openOrders"@,
                "symbol="@ + symbol@ + stamp(timestamp),
            ),
    {
        let mut p = "symbol=".to_string();
        p.append(symbol);
        p.append(stamp_text(timestamp).as_str());
        self.sign(Method::Get, "/fapi/v1/openOrders", p.as_str())
    }

    /// Asks for the open conditional orders of a symbol.
    pub fn get_open_algo_orders(&self, symbol: &str, timestamp: u64) -> (r: Request)
        ensures
            self.signed(
                r,
                Method::Get,
                "/fapi/v1/openAlgoOrders"@,
                "symbol="@ + symbol@ + stamp(timestamp),
            ),
    {
        let mut p = "symbol=".to_string();
        p.append(symbol);
        p.append(stamp_text(timestamp).as_str());
        self.sign(Method::Get, "/fapi/v1/openAlgoOrders", p.as_str())
    }

    /// Cancels an order.
    pub fn cancel_order(&self, symbol: &str, order_id: u64, timestamp: u64) -> (r: Request)
        ensures
            self.signed(
                r,
                Method::Delete,
                "/fapi/v1/order"@,
                "symbol="@ + symbol@ + "&orderId="@ + digits(order_id as nat) + stamp(timestamp),
            ),
    {
        let mut p = "symbol=".to_string();
        p.append(symbol);
        p.append("&orderId=");
        p.append(number_text(order_id as u128).as_str());
        p.append(stamp_text(timestamp).as_str());
        self.sign(Method::Delete, "/fapi/v1/order", p.as_str())
    }

    /// Cancels a conditional order.
    pub fn cancel_algo_order(&self, algo_id: u64, timestamp: u64) -> (r: Request)
        ensures
            self.signed(
                r,
                Method::Delete,
                "/fapi/v1/algoOrder"@,
                "algoId="@ + digits(algo_id as nat) + stamp(timestamp),
            ),
    {
        let mut p = "algoId=".to_string();
        p.append(number_text(algo_id as u128).as_str());
        p.append(stamp_text(timestamp).as_str());
        self.sign(Method::Delete, "/fapi/v1/algoOrder", p.as_str())
    }

    /// Asks for the account.
    pub fn check_account(&self, timestamp: u64) -> (r: Request)
        ensures
            self.signed(
                r,
                Method::Get,
                "/fapi/v2/account"@,
                "recvWindow=60000&timestamp="@ + digits(timestamp as nat),
            ),
    {
        let mut p = "recvWindow=60000&timestamp=".to_string();
        p.append(number_text(timestamp as u128).as_str());
        self.sign(Method::Get, "/fapi/v2/account", p.as_str())
    }

    /// Asks for the positions.
    pub fn check_positions(&self, timestamp: u64) -> (r: Request)
        ensures
            self.signed(
                r,
                Method::Get,
                "/fapi/v2/positionRisk"@,
                "recvWindow=60000&timestamp="@ + digits(timestamp as nat),
            ),
    {
        let mut p = "recvWindow=60000&timestamp=".to_string();
        p.append(number_text(timestamp as u128).as_str());
        self.sign(Method::Get, "/fapi/v2/positionRisk", p.as_str())
    }

    /// Asks for a page of the income between two moments.
    pub fn get_income_history(&self, start_time: u64, end_time: u64, timestamp: u64) -> (r: Request)
        ensures
            self.signed(
                r,
                Method::Get,
                "/fapi/v1/income"@,
                "startTime="@ + digits(start_time as nat) + "&endTime="@ + digits(end_time as nat)
                    + "&limit=1000"@ + stamp(timestamp),
            ),
    {
        let mut p = "startTime=".to_string();
        p.append(number_text(start_time as u128).as_str());
        p.append("&endTime=");
        p.append(number_text(end_time as u128).as_str());
        p.append("&limit=1000");
        p.append(stamp_text(timestamp).as_str());
        self.sign(Method::Get, "/fapi/v1/income", p.as_str())
    }

    /// Asks for the trades of a symbol: as many as a limit says, from a moment on.
    pub fn get_user_trades(
        &self,
        symbol: &str,
        limit: Option<u32>,
        start_time: Option<u64>,
        timestamp: u64,
    ) -> (r: Request)
        ensures
            self.signed(
                r,
                Method::Get,
                "/fapi/v1/userTrades"@,
                "symbol="@ + symbol@ + "&timestamp="@ + digits(timestamp as nat) + (match limit {
                    Some(l) => "&limit="@ + digits(l as nat),
                    None => Seq::empty(),
                }) + (match start_time {
                    Some(t) => "&startTime="@ + digits(t as nat),
                    None => Seq::empty(),
                }),
            ),
    {
        let mut p = "symbol=".to_string();
        p.append(symbol);
        p.append("&timestamp=");
        p.append(number_text(timestamp as u128).as_str());
        let ghost head = p@;
        let mut tail = String::new();
        if let Some(l) = limit {
            tail.append("&limit=");
            tail.append(number_text(l as u128).as_str());
        }
        assert(limit is Some ==> tail@ =~= "&limit="@ + digits(limit->0 as nat));
        p.append(tail.as_str());
        let mut tail = String::new();
        if let Some(t) = start_time {
            tail.append("&startTime=");
            tail.append(number_text(t as u128).as_str());
        }
        assert(start_time is Some ==> tail@ =~= "&startTime="@ + digits(start_time->0 as nat));
        p.append(tail.as_str());
        self.sign(Method::Get, "/fapi/v1/userTrades", p.as_str())
    }

    /// Asks for the funding rate of a symbol.
    pub fn fetch_funding_rate(&self, symbol: &str) -> (r: Request)
        ensures
            r.method == Method::Get && !r.with_key,
            r.url@ == self.base_url@ + "/fapi/v1/premiumIndex?symbol="@ + symbol@,
    {
        let mut url = self.base_url.clone();
        url.append("/fapi/v1/premiumIndex?symbol=");
        url.append(symbol);
        Request { method: Method::Get, url, with_key: false }
    }

    /// Asks for the last two candles of a symbol.
    pub fn fetch_kline_open_price(&self, symbol: &str, interval: &str) -> (r: Request)
        ensures
            r.method == Method::Get && !r.with_key,
            r.url@ == self.base_url@ + "/fapi/v1/klines?symbol="@ + symbol@ + "&interval="@
                + interval@ + "&limit=2"@,
    {
        let mut url = self.base_url.clone();
        url.append("/fapi/v1/klines?symbol=");
        url.append(symbol);
        url.append("&interval=");
        url.append(interval);
        url.append("&limit=2");
        Request { method: Method::Get, url, with_key: false }
    }

    /// Asks for the rules of the symbols.
    pub fn fetch_exchange_info(&self) -> (r: Request)
        ensures
            r.method == Method::Get && !r.with_key,
            r.url@ == self.base_url@ + "/fapi/v1/exchangeInfo"@,
    {
        let mut url = self.base_url.clone();
        url.append("/fapi/v1/exchangeInfo");
        Request { method: Method::Get, url, with_key: false }
    }
}

fn stamp_text(timestamp: u64) -> (r: String)
    ensures
        r@ == stamp(timestamp),
{
    let mut p = "&recvWindow=60000&timestamp=".to_string();
    p.append(number_text(timestamp as u128).as_str());
    p
}

/// What the exchange says to a leverage.
pub fn leverage_reply(success: bool, text: &str) -> (r: Result<(), ExchangeError>)
    ensures
        success ==> r is Ok,
        !success ==> (r matches Err(ExchangeError::Leverage(t)) && t@ == text@),
{
    if success { Ok(()) } else { Err(ExchangeError::Leverage(text.to_string())) }
}

/// What the exchange says to a kind of margin. That nothing has to be changed is no error.
pub fn margin_type_reply(success: bool, text: &str) -> (r: Result<(), ExchangeError>)
    ensures
        r is Ok <==> success || holds(text@, "-4046"@),
        r matches Err(e) ==> (e matches ExchangeError::MarginType(t) && t@ == text@),
{
    if success || contains(text, "-4046") {
        Ok(())
    } else {
        Err(ExchangeError::MarginType(text.to_string()))
    }
}

/// The average price in the reply to an order, zero where it has none above zero.
pub open spec fn fill_price_of(j: JsonView) -> Dec {
    let price = or_else(j.dec_field("avgPrice"@), zero());
    if price.units() > 0 { price } else { zero() }
}

/// The price at which an order was filled.
pub fn order_reply(success: bool, text: &str) -> (r: Result<Dec, ExchangeError>)
    ensures
        match r {
            Ok(price) => success && json_of_text(text@) is Some && price == fill_price_of(
                json_of_text(text@)->0,
            ),
            Err(ExchangeError::NotJson(why)) => success && json_fault(text@) == Some(why@),
            Err(ExchangeError::Order(t)) => !success && t@ == text@,
            Err(_) => false,
        },
{
    if !success {
        return Err(ExchangeError::Order(text.to_string()));
    }
    match read_json(text) {
        Err(why) => Err(ExchangeError::NotJson(why)),
        Ok(j) => {
            let price = or_else(j.dec_field("avgPrice"), zero());
            Ok(if price.is_positive() { price } else { zero() })
        },
    }
}

/// The reply to an order with a limit.
pub fn limit_order_reply(success: bool, text: &str) -> (r: Result<String, ExchangeError>)
    ensures
        match r {
            Ok(t) => success && t@ == text@,
            Err(ExchangeError::LimitOrder(t)) => !success && t@ == text@,
            Err(_) => false,
        },
{
    if success { Ok(text.to_string()) } else { Err(ExchangeError::LimitOrder(text.to_string())) }
}

/// The number of a stop order that was placed.
pub fn stop_reply(success: bool, text: &str) -> (r: Result<u64, ExchangeError>)
    ensures
        match r {
            Ok(id) => success && (json_of_text(text@) matches Some(j) && j.u64_field("orderId"@)
                == Some(id)),
            Err(ExchangeError::NotJson(why)) => success && json_fault(text@) == Some(why@),
            Err(ExchangeError::StopWithoutId(t)) => success && t@ == text@ && (json_of_text(
                text@,
            ) matches Some(j) && j.u64_field("orderId"@) is None),
            Err(ExchangeError::Stop(t)) => !success && t@ == text@,
            Err(_) => false,
        },
{
    if !success {
        return Err(ExchangeError::Stop(text.to_string()));
    }
    match read_json(text) {
        Err(why) => Err(ExchangeError::NotJson(why)),
        Ok(j) => match j.u64_field("orderId") {
            Some(id) => Ok(id),
            None => Err(ExchangeError::StopWithoutId(text.to_string())),
        },
    }
}

/// What the exchange says to a cancellation.
pub fn cancel_reply(success: bool, text: &str) -> (r: Result<(), ExchangeError>)
    ensures
        success ==> r is Ok,
        !success ==> (r matches Err(ExchangeError::Cancel(t)) && t@ == text@),
{
    if success { Ok(()) } else { Err(ExchangeError::Cancel(text.to_string())) }
}

/// Whether an HTTP status is a success.
pub open spec fn is_success(status: u16) -> bool {
    200 <= status < 300
}

/// The funding rate in a reply, zero where it has none.
pub fn funding_reply(status: u16, text: &str) -> (r: Result<Dec, ExchangeError>)
    ensures
        match r {
            Ok(rate) => is_success(status) && (json_of_text(text@) matches Some(j) && rate == or_else(
                j.dec_field("lastFundingRate"@),
                zero(),
            )),
            Err(ExchangeError::NotJson(why)) => is_success(status) && json_fault(text@) == Some(why@),
            Err(ExchangeError::FundingStatus(n)) => !is_success(status) && n == status,
            Err(_) => false,
        },
{
    if status < 200 || status >= 300 {
        return Err(ExchangeError::FundingStatus(status));
    }
    match read_json(text) {
        Err(why) => Err(ExchangeError::NotJson(why)),
        Ok(j) => Ok(or_else(j.dec_field("lastFundingRate"), zero())),
    }
}

/// The text of the opening price of the first candle.
pub open spec fn open_price_text(j: JsonView) -> Option<Seq<char>> {
    match j.list() {
        Some(v) => if v.len() > 0 { v[0].item_text(1) } else { None },
        None => None,
    }
}

/// The opening price of the first of the candles in a reply.
pub fn kline_reply(success: bool, text: &str) -> (r: Result<Dec, ExchangeError>)
    ensures
        match r {
            Ok(price) => success && (json_of_text(text@) matches Some(j) && (open_price_text(
                j,
            ) matches Some(t) && price == or_else(dec_of_text(t), zero()))),
            Err(ExchangeError::NotJson(why)) => success && json_fault(text@) == Some(why@),
            Err(ExchangeError::KlineShape) => success && (json_of_text(text@) matches Some(j)
                && open_price_text(j) is None),
            Err(ExchangeError::Klines(t)) => !success && t@ == text@,
            Err(_) => false,
        },
{
    if !success {
        return Err(ExchangeError::Klines(text.to_string()));
    }
    let j = match read_json(text) {
        Err(why) => return Err(ExchangeError::NotJson(why)),
        Ok(j) => j,
    };
    if let Some(v) = j.list() {
        if v.len() > 0 {
            assert(views(v@)[0] == v@[0]@);
            if let Some(t) = v[0].item_text(1) {
                return Ok(or_else(parse_dec(t), zero()));
            }
        }
    }
    Err(ExchangeError::KlineShape)
}

/// The rules of a symbol: the steps of its quantity and of its price.
#[derive(Debug)]
pub struct SymbolInfo {
    pub symbol: String,
    pub step_size: Dec,
    pub tick_size: Dec,
}

impl View for SymbolInfo {
    type V = (Seq<char>, Dec, Dec);

    open spec fn view(&self) -> (Seq<char>, Dec, Dec) {
        (self.symbol@, self.step_size, self.tick_size)
    }
}

/// Rules as symbols and steps.
pub open spec fn info_views(v: Seq<SymbolInfo>) -> Seq<(Seq<char>, Dec, Dec)> {
    v.map_values(|i: SymbolInfo| i@)
}

/// The step that the first `n` filters set: the last one of a kind that names a step.
pub open spec fn step_in(filters: Seq<JsonView>, kind: Seq<char>, key: Seq<char>, n: int) -> Dec
    decreases n,
{
    if n <= 0 {
        lit(1, 0)
    } else {
        let f = filters[n - 1];
        match f.text_field(key) {
            Some(s) if f.text_field("filterType"@) == Some(kind) => or_else(
                dec_of_text(s),
                lit(1, 0),
            ),
            _ => step_in(filters, kind, key, n - 1),
        }
    }
}

/// The rules that an entry of the exchange's list writes.
pub open spec fn info_of(item: JsonView) -> Option<(Seq<char>, Dec, Dec)> {
    match item.text_field("symbol"@) {
        None => None,
        Some(symbol) => {
            let filters = match item.list_field("filters"@) {
                Some(v) => v,
                None => Seq::empty(),
            };
            let n = filters.len() as int;
            Some(
                (
                    symbol,
                    step_in(filters, "LOT_SIZE"@, "stepSize"@, n),
                    step_in(filters, "PRICE_FILTER"@, "tickSize"@, n),
                ),
            )
        },
    }
}

/// The place of a symbol in a list of rules, its length where it is not there.
pub open spec fn info_place(list: Seq<(Seq<char>, Dec, Dec)>, symbol: Seq<char>, i: nat) -> nat
    decreases list.len() - i,
{
    if i >= list.len() {
        list.len()
    } else if list[i as int].0 == symbol {
        i
    } else {
        info_place(list, symbol, i + 1)
    }
}

/// The rules of the first `n` entries of the exchange's list, the last ones of each symbol.
pub open spec fn infos_of(items: Seq<JsonView>, n: int) -> Seq<(Seq<char>, Dec, Dec)>
    decreases n,
{
    if n <= 0 {
        Seq::empty()
    } else {
        let before = infos_of(items, n - 1);
        match info_of(items[n - 1]) {
            None => before,
            Some(info) => {
                let at = info_place(before, info.0, 0);
                if at < before.len() { before.update(at as int, info) } else { before.push(info) }
            },
        }
    }
}

/// All the rules in a reply of the exchange.
pub open spec fn exchange_rules(j: JsonView) -> Seq<(Seq<char>, Dec, Dec)> {
    match j.list_field("symbols"@) {
        Some(items) => infos_of(items, items.len() as int),
        None => Seq::empty(),
    }
}

fn read_step(filters: &Vec<Json>, kind: &str, key: &str) -> (r: Dec)
    ensures
        r == step_in(views(filters@), kind@, key@, filters@.len() as int),
{
    let ghost all = views(filters@);
    let mut step = lit(1, 0);
    let mut n: usize = 0;
    while n < filters.len()
        invariant
            n <= filters.len(),
            all == views(filters@),
            step == step_in(all, kind@, key@, n as int),
        decreases filters.len() - n,
    {
        assert(all[n as int] == filters@[n as int]@);
        let is_kind = match filters[n].text_field("filterType") {
            Some(s) => same(s, kind),
            None => false,
        };
        if is_kind {
            if let Some(s) = filters[n].text_field(key) {
                step = or_else(parse_dec(s), lit(1, 0));
            }
        }
        n = n + 1;
    }
    step
}

fn read_info(item: &Json) -> (r: Option<SymbolInfo>)
    ensures
        match r {
            Some(info) => info_of(item@) == Some(info@),
            None => info_of(item@) is None,
        },
{
    let symbol = match item.text_field("symbol") {
        Some(s) => s,
        None => return None,
    };
    match item.list_field("filters") {
        Some(filters) => Some(
            SymbolInfo {
                symbol: symbol.to_string(),
                step_size: read_step(filters, "LOT_SIZE", "stepSize"),
                tick_size: read_step(filters, "PRICE_FILTER", "tickSize"),
            },
        ),
        None => Some(
            SymbolInfo { symbol: symbol.to_string(), step_size: lit(1, 0), tick_size: lit(1, 0) },
        ),
    }
}

/// The rules of the symbols in a reply, one for each symbol.
pub fn exchange_info_reply(success: bool, text: &str) -> (r: Result<
    Vec<SymbolInfo>,
    ExchangeError,
>)
    ensures
        match r {
            Ok(list) => success && (json_of_text(text@) matches Some(j) && info_views(list@)
                == exchange_rules(j)),
            Err(ExchangeError::NotJson(why)) => success && json_fault(text@) == Some(why@),
            Err(ExchangeError::ExchangeInfo) => !success,
            Err(_) => false,
        },
{
    if !success {
        return Err(ExchangeError::ExchangeInfo);
    }
    let j = match read_json(text) {
        Err(why) => return Err(ExchangeError::NotJson(why)),
        Ok(j) => j,
    };
    let mut list: Vec<SymbolInfo> = Vec::new();
    assert(info_views(list@) =~= Seq::empty());
    let items = match j.list_field("symbols") {
        Some(v) => v,
        None => return Ok(list),
    };
    let ghost all = views(items@);
    let mut n: usize = 0;
    while n < items.len()
        invariant
            n <= items.len(),
            all == views(items@),
            info_views(list@) == infos_of(all, n as int),
        decreases items.len() - n,
    {
        assert(all[n as int] == items@[n as int]@);
        if let Some(info) = read_info(&items[n]) {
            let ghost before = info_views(list@);
            let ghost new = info@;
            let mut at: usize = 0;
            while at < list.len() && !same(list[at].symbol.as_str(), info.symbol.as_str())
                invariant
                    at <= list.len(),
                    before == info_views(list@),
                    info_place(before, info@.0, 0) == info_place(before, info@.0, at as nat),
                decreases list.len() - at,
            {
                assert(before[at as int] == list@[at as int]@);
                at = at + 1;
            }
            if at < list.len() {
                assert(before[at as int] == list@[at as int]@);
                list.set(at, info);
                assert(info_views(list@) =~= before.update(at as int, new));
            } else {
                list.push(info);
                assert(info_views(list@) =~= before.push(new));
            }
        }
        n = n + 1;
    }
    Ok(list)
}

/// The place of the rules of a symbol in a list.
pub fn find_info(list: &Vec<SymbolInfo>, symbol: &str) -> (r: Option<usize>)
    ensures
        match r {
            Some(i) => i < list@.len() && list@[i as int].symbol@ == symbol@ && forall|k: int|
                0 <= k < i ==> (#[trigger] list@[k]).symbol@ != symbol@,
            None => forall|k: int| 0 <= k < list@.len() ==> (#[trigger] list@[k]).symbol@
                != symbol@,
        },
{
    let mut i: usize = 0;
    while i < list.len()
        invariant
            i <= list.len(),
            forall|k: int| 0 <= k < i ==> (#[trigger] list@[k]).symbol@ != symbol@,
        decreases list.len() - i,
    {
        if same(list[i].symbol.as_str(), symbol) {
            return Some(i);
        }
        i = i + 1;
    }
    None
}

/// The income between two moments, by its kinds.
#[derive(Clone, Copy, Debug)]
pub struct IncomeSummary {
    pub realized_pnl: Dec,
    pub commission: Dec,
    pub funding_fee: Dec,
    pub trades_count: u32,
    pub records_processed: u32,
}

impl IncomeSummary {
    /// No income.
    pub open spec fn none() -> IncomeSummary {
        IncomeSummary {
            realized_pnl: zero(),
            commission: zero(),
            funding_fee: zero(),
            trades_count: 0,
            records_processed: 0,
        }
    }

    /// No income.
    pub fn new() -> (r: IncomeSummary)
        ensures
            r == IncomeSummary::none(),
    {
        IncomeSummary {
            realized_pnl: zero(),
            commission: zero(),
            funding_fee: zero(),
            trades_count: 0,
            records_processed: 0,
        }
    }

    /// What is left: the realised profit, the fees and the funding together. Nothing where the sum is
    /// out of range.
    pub fn net(&self) -> (r: Option<Dec>)
        ensures
            r == sum(
                sum(Some(self.realized_pnl), Some(self.commission)),
                Some(self.funding_fee),
            ),
            r is Some ==> exists|first: Dec| #[trigger]
                rounded(Some(first), self.realized_pnl.units() + self.commission.units(), 1) && rounded(
                    r,
                    first.units() + self.funding_fee.units(),
                    1,
                ),
    {
        sum(sum(Some(self.realized_pnl), Some(self.commission)), Some(self.funding_fee))
    }
}

/// The number of the transaction of an income record: a text, or a number as text.
pub open spec fn tran_id(r: JsonView) -> Seq<char> {
    match r.text_field("tranId"@) {
        Some(s) => s,
        None => match r.u64_field("tranId"@) {
            Some(n) => digits(n as nat),
            None => Seq::empty(),
        },
    }
}

/// The kind of an income record.
pub open spec fn income_type(r: JsonView) -> Seq<char> {
    match r.text_field("incomeType"@) {
        Some(s) => s,
        None => ""@,
    }
}

/// By what an income record is known: the transaction and the kind, since the profit and the fee of
/// one trade can share a transaction. Nothing where it has no transaction.
pub open spec fn record_key(r: JsonView) -> Option<Seq<char>> {
    let id = tran_id(r);
    if id.len() == 0 { None } else { Some(id + ":"@ + income_type(r)) }
}

/// Where the reading of the income stands: the records that were seen, the totals, the latest moment,
/// and how many records of the page were new.
pub ghost struct IncomeState {
    pub seen: Seq<Seq<char>>,
    pub summary: IncomeSummary,
    pub max_time: u64,
    pub fresh: nat,
}

/// The totals with a record added to them.
pub open spec fn with_record(s: IncomeSummary, r: JsonView) -> Option<IncomeSummary> {
    let amount = or_else(r.dec_field("income"@), zero());
    let kind = income_type(r);
    if kind == "REALIZED_PNL"@ {
        match sum(Some(s.realized_pnl), Some(amount)) {
            Some(d) if s.trades_count < u32::MAX => Some(
                IncomeSummary {
                    realized_pnl: d,
                    trades_count: (s.trades_count + 1) as u32,
                    ..s
                },
            ),
            _ => None,
        }
    } else if kind == "COMMISSION"@ {
        match sum(Some(s.commission), Some(amount)) {
            Some(d) => Some(IncomeSummary { commission: d, ..s }),
            None => None,
        }
    } else if kind == "FUNDING_FEE"@ {
        match sum(Some(s.funding_fee), Some(amount)) {
            Some(d) => Some(IncomeSummary { funding_fee: d, ..s }),
            None => None,
        }
    } else {
        Some(s)
    }
}

/// The state with a record read: one that was seen before changes nothing.
pub open spec fn after_record(st: IncomeState, r: JsonView) -> Option<IncomeState> {
    let key = record_key(r);
    if key is Some && st.seen.contains(key->0) {
        Some(st)
    } else {
        let time = match r.u64_field("time"@) {
            Some(t) => t,
            None => 0,
        };
        match with_record(st.summary, r) {
            None => None,
            Some(summary) => Some(
                IncomeState {
                    seen: if key is Some { st.seen.push(key->0) } else { st.seen },
                    summary,
                    max_time: if time > st.max_time { time } else { st.max_time },
                    fresh: st.fresh + 1,
                },
            ),
        }
    }
}

/// The state with the first `n` records of a page read.
pub open spec fn after_records(st: IncomeState, page: Seq<JsonView>, n: int) -> Option<IncomeState>
    decreases n,
{
    if n <= 0 {
        Some(st)
    } else {
        match after_records(st, page, n - 1) {
            None => None,
            Some(before) => after_record(before, page[n - 1]),
        }
    }
}

/// The reading of the income between two moments, page by page.
pub struct IncomeReader {
    pub seen: Vec<String>,
    pub summary: IncomeSummary,
    pub current_start: u64,
}

/// What a page of income led to.
#[derive(Clone, Copy, Debug, PartialEq, Eq, Structural)]
pub enum PageEnd {
    /// The next page is to be read.
    More,
    /// There is no more.
    Complete,
}

fn has_key(seen: &Vec<String>, key: &str) -> (r: bool)
    ensures
        r == texts(seen@).contains(key@),
{
    let mut i: usize = 0;
    while i < seen.len()
        invariant
            i <= seen.len(),
            forall|j: int| 0 <= j < i ==> (#[trigger] seen@[j])@ != key@,
        decreases seen.len() - i,
    {
        if same(seen[i].as_str(), key) {
            assert(texts(seen@)[i as int] == key@);
            return true;
        }
        i = i + 1;
    }
    assert(!texts(seen@).contains(key@)) by {
        if texts(seen@).contains(key@) {
            let k = choose|k: int| 0 <= k < texts(seen@).len() && texts(seen@)[k] == key@;
            assert(seen@[k]@ == key@);
        }
    }
    false
}

fn key_of(r: &Json) -> (k: Option<String>)
    ensures
        match k {
            Some(s) => record_key(r@) == Some(s@),
            None => record_key(r@) is None,
        },
{
    let id = match r.text_field("tranId") {
        Some(s) => s.to_string(),
        None => match r.u64_field("tranId") {
            Some(n) => number_text(n as u128),
            None => String::new(),
        },
    };
    if id.as_str().is_empty() {
        return None;
    }
    let mut k = id;
    k.append(":");
    k.append(
        match r.text_field("incomeType") {
            Some(s) => s,
            None => "",
        },
    );
    Some(k)
}

/// A record adds its amount, with its sign, to the total of its kind and to no other: a loss lowers the realised
/// profit, a fee that was paid lowers the fees.
pub open spec fn books_amount(s: IncomeSummary, r: JsonView, next: IncomeSummary) -> bool {
    let amount = match r.dec_field("income"@) {
        Some(d) => d.units(),
        None => 0,
    };
    let kind = r.text_field("incomeType"@);
    &&& if kind == Some("REALIZED_PNL"@) {
        rounded(Some(next.realized_pnl), s.realized_pnl.units() + amount, 1) && next.trades_count
            == s.trades_count + 1
    } else {
        next.realized_pnl == s.realized_pnl && next.trades_count == s.trades_count
    }
    &&& if kind == Some("COMMISSION"@) {
        rounded(Some(next.commission), s.commission.units() + amount, 1)
    } else {
        next.commission == s.commission
    }
    &&& if kind == Some("FUNDING_FEE"@) {
        rounded(Some(next.funding_fee), s.funding_fee.units() + amount, 1)
    } else {
        next.funding_fee == s.funding_fee
    }
    &&& next.records_processed == s.records_processed
}

/// The words for the kinds of income differ.
proof fn lemma_kinds()
    ensures
        "REALIZED_PNL"@ != "COMMISSION"@,
        "REALIZED_PNL"@ != "FUNDING_FEE"@,
        "COMMISSION"@ != "FUNDING_FEE"@,
        ""@ != "REALIZED_PNL"@,
        ""@ != "COMMISSION"@,
        ""@ != "FUNDING_FEE"@,
{
    reveal_strlit("REALIZED_PNL");
    reveal_strlit("COMMISSION");
    reveal_strlit("FUNDING_FEE");
    reveal_strlit("");
    assert("REALIZED_PNL"@.len() == 12);
    assert("COMMISSION"@.len() == 10);
    assert("FUNDING_FEE"@.len() == 11);
    assert(""@.len() == 0);
}

fn add_record(s: IncomeSummary, r: &Json) -> (next: Option<IncomeSummary>)
    ensures
        next == with_record(s, r@),
        next matches Some(n) ==> books_amount(s, r@, n),
{
    proof {
        lemma_kinds();
        lemma_lit(0, 0);
        lemma_units_sign(zero());
    }
    let amount = or_else(r.dec_field("income"), zero());
    let kind = match r.text_field("incomeType") {
        Some(s) => s,
        None => "",
    };
    let mut next = s;
    if same(kind, "REALIZED_PNL") {
        match sum(Some(s.realized_pnl), Some(amount)) {
            Some(d) if s.trades_count < u32::MAX => {
                next.realized_pnl = d;
                next.trades_count = s.trades_count + 1;
            },
            _ => return None,
        }
    } else if same(kind, "COMMISSION") {
        match sum(Some(s.commission), Some(amount)) {
            Some(d) => {
                next.commission = d;
            },
            None => return None,
        }
    } else if same(kind, "FUNDING_FEE") {
        match sum(Some(s.funding_fee), Some(amount)) {
            Some(d) => {
                next.funding_fee = d;
            },
            None => return None,
        }
    }
    Some(next)
}

impl IncomeReader {
    /// A reading from a moment on.
    pub fn new(start_time: u64) -> (r: IncomeReader)
        ensures
            texts(r.seen@) == Seq::<Seq<char>>::empty(),
            r.summary == IncomeSummary::none(),
            r.current_start == start_time,
    {
        let r = IncomeReader {
            seen: Vec::new(),
            summary: IncomeSummary::new(),
            current_start: start_time,
        };
        assert(texts(r.seen@) =~= Seq::empty());
        r
    }

    /// Where the reading stands before a page.
    pub open spec fn state(&self) -> IncomeState {
        IncomeState {
            seen: texts(self.seen@),
            summary: self.summary,
            max_time: self.current_start,
            fresh: 0,
        }
    }

    /// Where the reading stands after a page, and whether there is more.
    pub open spec fn after_page(&self, page: Seq<JsonView>) -> Option<(IncomeState, PageEnd)> {
        match after_records(self.state(), page, page.len() as int) {
            None => None,
            Some(st) => if st.fresh + self.summary.records_processed > u32::MAX {
                None
            } else {
                Some(
                    (
                        IncomeState {
                            summary: IncomeSummary {
                                records_processed: (self.summary.records_processed + st.fresh) as u32,
                                ..st.summary
                            },
                            ..st
                        },
                        if page.len() < 1000 || st.fresh == 0 {
                            PageEnd::Complete
                        } else {
                            PageEnd::More
                        },
                    ),
                )
            },
        }
    }

    /// Adds a page of income to the totals. A record that an earlier page held is not counted again,
    /// so the next page can start at the last moment of this one. Where the page is no list of records
    /// or a figure is out of range, nothing changes.
    pub fn take_page(&mut self, text: &str) -> (r: Result<PageEnd, ExchangeError>)
        ensures
            match r {
                Ok(end) => list_of_text(text@) matches Some(page) && (old(self).after_page(
                    page,
                ) matches Some((st, e)) && e == end && texts(final(self).seen@) == st.seen
                    && final(self).summary == st.summary && final(self).current_start == if end
                    == PageEnd::More {
                    st.max_time
                } else {
                    old(self).current_start
                }),
                Err(ExchangeError::IncomeShape) => list_of_text(text@) is None,
                Err(ExchangeError::OutOfRange) => list_of_text(text@) matches Some(page) && old(
                    self,
                ).after_page(page) is None,
                Err(_) => false,
            },
            r is Err ==> texts(final(self).seen@) == texts(old(self).seen@) && final(self).summary
                == old(self).summary && final(self).current_start == old(self).current_start,
    {
        let page = match parse_list(text) {
            Some(v) => v,
            None => return Err(ExchangeError::IncomeShape),
        };
        let ghost all = views(page@);
        let ghost start = self.state();
        let mut seen: Vec<String> = Vec::new();
        let mut k: usize = 0;
        while k < self.seen.len()
            invariant
                k <= self.seen.len(),
                texts(seen@) == texts(self.seen@).take(k as int),
            decreases self.seen.len() - k,
        {
            let ghost before = texts(seen@);
            seen.push(self.seen[k].clone());
            assert(texts(seen@) =~= before.push(texts(self.seen@)[k as int]));
            assert(texts(self.seen@).take(k + 1) =~= texts(self.seen@).take(k as int).push(
                texts(self.seen@)[k as int],
            ));
            k = k + 1;
        }
        assert(texts(self.seen@).take(k as int) =~= texts(self.seen@));
        let mut summary = self.summary;
        let mut max_time: u64 = self.current_start;
        let mut fresh: u64 = 0;
        let mut n: usize = 0;
        while n < page.len()
            invariant
                n <= page.len(),
                all == views(page@),
                fresh <= n,
                *self == *old(self),
                start == self.state(),
                after_records(start, all, n as int) == Some(
                    IncomeState { seen: texts(seen@), summary, max_time, fresh: fresh as nat },
                ),
                list_of_text(text@) == Some(all),
            decreases page.len() - n,
        {
            let record = &page[n];
            assert(all[n as int] == record@);
            let key = key_of(record);
            let known = match &key {
                Some(s) => has_key(&seen, s.as_str()),
                None => false,
            };
            if !known {
                summary = match add_record(summary, record) {
                    Some(s) => s,
                    None => {
                        proof {
                            lemma_stays_out(start, all, n + 1, all.len() as int);
                        }
                        return Err(ExchangeError::OutOfRange);
                    },
                };
                let time: u64 = match record.u64_field("time") {
                    Some(t) => t,
                    None => 0,
                };
                if time > max_time {
                    max_time = time;
                }
                fresh = fresh + 1;
                if let Some(s) = key {
                    let ghost before = texts(seen@);
                    let ghost new = s@;
                    seen.push(s);
                    assert(texts(seen@) =~= before.push(new));
                }
            }
            n = n + 1;
        }
        let total: u128 = self.summary.records_processed as u128 + fresh as u128;
        if total > 0xffff_ffff {
            return Err(ExchangeError::OutOfRange);
        }
        summary.records_processed = total as u32;
        self.seen = seen;
        self.summary = summary;
        if page.len() < 1000 || fresh == 0 {
            Ok(PageEnd::Complete)
        } else {
            self.current_start = max_time;
            Ok(PageEnd::More)
        }
    }
}

proof fn lemma_stays_out(st: IncomeState, page: Seq<JsonView>, n: int, m: int)
    requires
        0 < n <= m,
        after_records(st, page, n) is None,
    ensures
        after_records(st, page, m) is None,
    decreases m,
{
    if n < m {
        lemma_stays_out(st, page, n, m - 1);
    }
}

/// A record that was seen is not counted again, wherever it turns up.
pub proof fn seen_record_counts_once(st: IncomeState, r: JsonView)
    requires
        record_key(r) matches Some(key) && st.seen.contains(key),
    ensures
        after_record(st, r) == Some(st),
{
}

/// Reading a record and then the same record again is reading it once.
pub proof fn repeated_record_counts_once(st: IncomeState, r: JsonView, next: IncomeState)
    requires
        record_key(r) is Some,
        after_record(st, r) == Some(next),
    ensures
        after_record(next, r) == Some(next),
{
    let key = record_key(r)->0;
    if !st.seen.contains(key) {
        assert(next.seen[next.seen.len() - 1] == key);
    }
}

/// A reading never goes back in time.
pub proof fn income_moves_on(st: IncomeState, page: Seq<JsonView>, n: int, next: IncomeState)
    requires
        after_records(st, page, n) == Some(next),
    ensures
        next.max_time >= st.max_time,
        next.fresh >= st.fresh,
    decreases n,
{
    if n > 0 {
        income_moves_on(st, page, n - 1, after_records(st, page, n - 1)->0);
    }
}

/// What is known of the records once the first `n` of a page were read.
pub open spec fn seen_after(seen: Seq<Seq<char>>, page: Seq<JsonView>, n: int) -> Seq<Seq<char>>
    decreases n,
{
    if n <= 0 {
        seen
    } else {
        let before = seen_after(seen, page, n - 1);
        match record_key(page[n - 1]) {
            Some(key) => if before.contains(key) { before } else { before.push(key) },
            None => before,
        }
    }
}

/// The records among the first `n` of a page that are new, each where it is met first.
pub open spec fn new_records(seen: Seq<Seq<char>>, page: Seq<JsonView>, n: int) -> Seq<JsonView>
    decreases n,
{
    if n <= 0 {
        Seq::empty()
    } else {
        let before = new_records(seen, page, n - 1);
        match record_key(page[n - 1]) {
            Some(key) => if seen_after(seen, page, n - 1).contains(key) {
                before
            } else {
                before.push(page[n - 1])
            },
            None => before.push(page[n - 1]),
        }
    }
}

/// The totals with some records added to them one by one.
pub open spec fn with_records(s: IncomeSummary, records: Seq<JsonView>) -> Option<IncomeSummary>
    decreases records.len(),
{
    if records.len() == 0 {
        Some(s)
    } else {
        match with_records(s, records.drop_last()) {
            Some(before) => with_record(before, records.last()),
            None => None,
        }
    }
}

/// The totals of a page are those of its new records, and as many are counted.
pub proof fn totals_are_of_new_records(st: IncomeState, page: Seq<JsonView>, n: int, next: IncomeState)
    requires
        after_records(st, page, n) == Some(next),
    ensures
        next.seen == seen_after(st.seen, page, n),
        with_records(st.summary, new_records(st.seen, page, n)) == Some(next.summary),
        next.fresh == st.fresh + new_records(st.seen, page, n).len(),
    decreases n,
{
    if n > 0 {
        let before = after_records(st, page, n - 1)->0;
        totals_are_of_new_records(st, page, n - 1, before);
        let d = new_records(st.seen, page, n - 1);
        assert(d.push(page[n - 1]).drop_last() =~= d);
    }
}

/// No record is new twice: of two new records of a page, at most one has a given key, and none has a key
/// that was known before.
pub proof fn new_records_differ(seen: Seq<Seq<char>>, page: Seq<JsonView>, n: int)
    ensures
        forall|k: Seq<char>| #[trigger] seen.contains(k) ==> seen_after(seen, page, n).contains(k),
        forall|i: int|
            0 <= i < new_records(seen, page, n).len() ==> (record_key(
                #[trigger] new_records(seen, page, n)[i],
            ) matches Some(key) ==> !seen.contains(key) && seen_after(seen, page, n).contains(key)),
        forall|i: int, j: int|
            0 <= i < j < new_records(seen, page, n).len() && record_key(
                #[trigger] new_records(seen, page, n)[i],
            ) is Some ==> record_key(new_records(seen, page, n)[i]) != record_key(
                #[trigger] new_records(seen, page, n)[j],
            ),
    decreases n,
{
    if n > 0 {
        new_records_differ(seen, page, n - 1);
        let before = seen_after(seen, page, n - 1);
        let after = seen_after(seen, page, n);
        assert forall|k: Seq<char>| #[trigger] before.contains(k) implies after.contains(k) by {
            let i = choose|i: int| 0 <= i < before.len() && before[i] == k;
            assert(after[i] == k);
        }
        if let Some(key) = record_key(page[n - 1]) {
            if !before.contains(key) {
                assert(after[before.len() as int] == key);
            }
        }
    }
}

/// The records of two pages count as those of one page that holds both: where the pages are cut makes no
/// difference.
pub proof fn pages_join(st: IncomeState, first: Seq<JsonView>, second: Seq<JsonView>, n: int)
    requires
        0 <= n <= second.len(),
    ensures
        after_records(st, first + second, first.len() + n) == match after_records(
            st,
            first,
            first.len() as int,
        ) {
            Some(mid) => after_records(mid, second, n),
            None => None,
        },
    decreases n,
{
    if n == 0 {
        lemma_same_start(st, first, second, first.len() as int);
    } else {
        pages_join(st, first, second, n - 1);
        assert((first + second)[first.len() + n - 1] == second[n - 1]);
    }
}

proof fn lemma_same_start(st: IncomeState, first: Seq<JsonView>, second: Seq<JsonView>, n: int)
    requires
        0 <= n <= first.len(),
    ensures
        after_records(st, first + second, n) == after_records(st, first, n),
    decreases n,
{
    if n > 0 {
        lemma_same_start(st, first, second, n - 1);
        assert((first + second)[n - 1] == first[n - 1]);
    }
}

/// Two states that differ at most in how many records were counted.
pub open spec fn same_but_counts(a: IncomeState, b: IncomeState) -> bool {
    &&& a.seen == b.seen
    &&& a.max_time == b.max_time
    &&& a.summary.realized_pnl == b.summary.realized_pnl
    &&& a.summary.commission == b.summary.commission
    &&& a.summary.funding_fee == b.summary.funding_fee
    &&& a.summary.trades_count == b.summary.trades_count
}

proof fn lemma_counts_apart(a: IncomeState, b: IncomeState, page: Seq<JsonView>, n: int)
    requires
        same_but_counts(a, b),
    ensures
        after_records(a, page, n) is Some <==> after_records(b, page, n) is Some,
        after_records(a, page, n) is Some ==> {
            let x = after_records(a, page, n)->0;
            let y = after_records(b, page, n)->0;
            &&& same_but_counts(x, y)
            &&& x.fresh - a.fresh == y.fresh - b.fresh
            &&& x.summary.records_processed == a.summary.records_processed
            &&& y.summary.records_processed == b.summary.records_processed
        },
    decreases n,
{
    if n > 0 {
        lemma_counts_apart(a, b, page, n - 1);
    }
}

/// A reading that takes two pages one after the other ends with the totals and the counts of a reading
/// that takes all their records at once.
pub proof fn readings_add_up(
    reader: &IncomeReader,
    later: &IncomeReader,
    first: Seq<JsonView>,
    second: Seq<JsonView>,
    mid: IncomeState,
    last: IncomeState,
    ends: (PageEnd, PageEnd),
)
    requires
        reader.after_page(first) == Some((mid, ends.0)),
        texts(later.seen@) == mid.seen,
        later.summary == mid.summary,
        later.current_start == mid.max_time,
        later.after_page(second) == Some((last, ends.1)),
    ensures
        reader.after_page(first + second) is Some,
        ({
            let (all, _) = reader.after_page(first + second)->0;
            &&& same_but_counts(all, last)
            &&& all.summary.records_processed == last.summary.records_processed
        }),
{
    let a = after_records(reader.state(), first, first.len() as int)->0;
    pages_join(reader.state(), first, second, second.len() as int);
    lemma_counts_apart(a, later.state(), second, second.len() as int);
    lemma_counts_apart(reader.state(), reader.state(), first, first.len() as int);
}

/// A record that is added to the totals changes the total of its kind by its amount, with its sign.
pub proof fn record_is_booked(s: IncomeSummary, r: JsonView, next: IncomeSummary)
    requires
        arithmetic(),
        s.realized_pnl.wf(),
        s.commission.wf(),
        s.funding_fee.wf(),
        r.dec_field("income"@) is Some ==> r.dec_field("income"@)->0.wf(),
        with_record(s, r) == Some(next),
    ensures
        books_amount(s, r, next),
        next.realized_pnl.wf(),
        next.commission.wf(),
        next.funding_fee.wf(),
{
    lemma_kinds();
    lemma_lit(0, 0);
    lemma_units_sign(zero());
    let amount = or_else(r.dec_field("income"@), zero());
    lemma_sum(s.realized_pnl, amount);
    lemma_sum(s.commission, amount);
    lemma_sum(s.funding_fee, amount);
}

/// The amount of an income record, in steps.
pub open spec fn amount_of(r: JsonView) -> int {
    match r.dec_field("income"@) {
        Some(d) => d.units(),
        None => 0,
    }
}

/// The amounts of the records of a kind added up, with their signs.
pub open spec fn amounts_of(records: Seq<JsonView>, kind: Seq<char>) -> int
    decreases records.len(),
{
    if records.len() == 0 {
        0
    } else {
        let r = records.last();
        amounts_of(records.drop_last(), kind) + if r.text_field("incomeType"@) == Some(kind) {
            amount_of(r)
        } else {
            0
        }
    }
}

/// The amounts of the records of a kind, and their sums one after the other, are whole numbers of a step and
/// fit into a decimal with its places.
pub open spec fn adds_exactly(start: int, records: Seq<JsonView>, kind: Seq<char>, step: Dec) -> bool
    decreases records.len(),
{
    &&& step.wf() && step.units() > 0
    &&& (start + amounts_of(records, kind)) % step.units() == 0
    &&& fits(distance(start + amounts_of(records, kind)), step.places())
    &&& records.len() > 0 ==> adds_exactly(start, records.drop_last(), kind, step)
}

/// The totals after some records are those of before and the amounts of the records of their kinds, gains up
/// and losses down, where the sums are decimals of some step.
pub proof fn income_adds_up(
    s: IncomeSummary,
    records: Seq<JsonView>,
    next: IncomeSummary,
    steps: (Dec, Dec, Dec),
)
    requires
        arithmetic(),
        s.realized_pnl.wf(),
        s.commission.wf(),
        s.funding_fee.wf(),
        forall|i: int|
            0 <= i < records.len() && (#[trigger] records[i]).dec_field("income"@) is Some
                ==> records[i].dec_field("income"@)->0.wf(),
        with_records(s, records) == Some(next),
        adds_exactly(s.realized_pnl.units(), records, "REALIZED_PNL"@, steps.0),
        adds_exactly(s.commission.units(), records, "COMMISSION"@, steps.1),
        adds_exactly(s.funding_fee.units(), records, "FUNDING_FEE"@, steps.2),
    ensures
        next.realized_pnl.units() == s.realized_pnl.units() + amounts_of(records, "REALIZED_PNL"@),
        next.commission.units() == s.commission.units() + amounts_of(records, "COMMISSION"@),
        next.funding_fee.units() == s.funding_fee.units() + amounts_of(records, "FUNDING_FEE"@),
        next.realized_pnl.wf(),
        next.commission.wf(),
        next.funding_fee.wf(),
    decreases records.len(),
{
    if records.len() > 0 {
        let front = records.drop_last();
        let r = records.last();
        let before = with_records(s, front)->0;
        assert forall|i: int| 0 <= i < front.len() && (#[trigger] front[i]).dec_field("income"@) is Some implies
            front[i].dec_field("income"@)->0.wf() by {
            assert(front[i] == records[i]);
        }
        income_adds_up(s, front, before, steps);
        assert(r == records[records.len() - 1]);
        record_is_booked(before, r, next);
        lemma_lands(next.realized_pnl, s.realized_pnl.units() + amounts_of(records, "REALIZED_PNL"@), steps.0);
        lemma_lands(next.commission, s.commission.units() + amounts_of(records, "COMMISSION"@), steps.1);
        lemma_lands(next.funding_fee, s.funding_fee.units() + amounts_of(records, "FUNDING_FEE"@), steps.2);
    }
}

/// A page that was read adds the signed amounts of its new records to the totals, each kind to its own.
pub proof fn page_adds_up(
    reader: &IncomeReader,
    page: Seq<JsonView>,
    st: IncomeState,
    end: PageEnd,
    steps: (Dec, Dec, Dec),
)
    requires
        arithmetic(),
        reader.summary.realized_pnl.wf(),
        reader.summary.commission.wf(),
        reader.summary.funding_fee.wf(),
        reader.after_page(page) == Some((st, end)),
        ({
            let new = new_records(texts(reader.seen@), page, page.len() as int);
            &&& forall|i: int|
                0 <= i < new.len() && (#[trigger] new[i]).dec_field("income"@) is Some
                    ==> new[i].dec_field("income"@)->0.wf()
            &&& adds_exactly(reader.summary.realized_pnl.units(), new, "REALIZED_PNL"@, steps.0)
            &&& adds_exactly(reader.summary.commission.units(), new, "COMMISSION"@, steps.1)
            &&& adds_exactly(reader.summary.funding_fee.units(), new, "FUNDING_FEE"@, steps.2)
        }),
    ensures
        ({
            let new = new_records(texts(reader.seen@), page, page.len() as int);
            let (was, is) = (reader.summary, st.summary);
            &&& is.realized_pnl.units() == was.realized_pnl.units() + amounts_of(new, "REALIZED_PNL"@)
            &&& is.commission.units() == was.commission.units() + amounts_of(new, "COMMISSION"@)
            &&& is.funding_fee.units() == was.funding_fee.units() + amounts_of(new, "FUNDING_FEE"@)
            &&& is.records_processed == was.records_processed + new.len()
        }),
{
    let mid = after_records(reader.state(), page, page.len() as int)->0;
    totals_are_of_new_records(reader.state(), page, page.len() as int, mid);
    let new = new_records(texts(reader.seen@), page, page.len() as int);
    income_adds_up(reader.summary, new, mid.summary, steps);
}

/// Every record of a page is counted, there or where its key was met before: a record without a key is new, and
/// so is the first with a key that was not known.
pub proof fn no_record_is_lost(seen: Seq<Seq<char>>, page: Seq<JsonView>, n: int, i: int)
    requires
        0 <= i < n <= page.len(),
    ensures
        record_key(page[i]) is None ==> new_records(seen, page, n).contains(page[i]),
        record_key(page[i]) matches Some(key) && !seen.contains(key) ==> exists|j: int|
            0 <= j < new_records(seen, page, n).len() && record_key(#[trigger] new_records(seen, page, n)[j])
                == record_key(page[i]),
        record_key(page[i]) matches Some(key) ==> seen_after(seen, page, n).contains(key),
    decreases n,
{
    let before = new_records(seen, page, n - 1);
    let all = new_records(seen, page, n);
    let known = seen_after(seen, page, n - 1);
    if i < n - 1 {
        no_record_is_lost(seen, page, n - 1, i);
        if record_key(page[i]) is None {
            let j = choose|j: int| 0 <= j < before.len() && before[j] == page[i];
            assert(all[j] == page[i]);
        } else {
            let key = record_key(page[i])->0;
            let k = choose|k: int| 0 <= k < known.len() && known[k] == key;
            assert(seen_after(seen, page, n)[k] == key);
            if !seen.contains(key) {
                let j = choose|j: int|
                    0 <= j < before.len() && record_key(#[trigger] before[j]) == record_key(page[i]);
                assert(all[j] == before[j]);
            }
        }
    } else {
        lemma_seen_is_new(seen, page, n - 1);
        match record_key(page[i]) {
            None => {
                assert(all[before.len() as int] == page[i]);
            },
            Some(key) => {
                if known.contains(key) {
                    if !seen.contains(key) {
                        let j = choose|j: int|
                            0 <= j < before.len() && record_key(#[trigger] before[j]) == Some(key);
                        assert(all[j] == before[j]);
                    }
                } else {
                    assert(all[before.len() as int] == page[i]);
                    assert(seen_after(seen, page, n)[known.len() as int] == key);
                }
            },
        }
    }
}

/// What is known after a page is what was known before and the keys of its new records.
proof fn lemma_seen_is_new(seen: Seq<Seq<char>>, page: Seq<JsonView>, n: int)
    ensures
        forall|key: Seq<char>| #[trigger]
            seen_after(seen, page, n).contains(key) && !seen.contains(key) ==> exists|j: int|
                0 <= j < new_records(seen, page, n).len() && record_key(
                    #[trigger] new_records(seen, page, n)[j],
                ) == Some(key),
    decreases n,
{
    if n > 0 {
        lemma_seen_is_new(seen, page, n - 1);
        let before = new_records(seen, page, n - 1);
        let all = new_records(seen, page, n);
        let known = seen_after(seen, page, n - 1);
        let after = seen_after(seen, page, n);
        assert forall|key: Seq<char>| #[trigger] after.contains(key) && !seen.contains(key) implies exists|
            j: int,
        | 0 <= j < all.len() && record_key(#[trigger] all[j]) == Some(key) by {
            let k = choose|k: int| 0 <= k < after.len() && after[k] == key;
            if k < known.len() {
                assert(known[k] == key);
                assert(known.contains(key));
                let j = choose|j: int| 0 <= j < before.len() && record_key(#[trigger] before[j]) == Some(key);
                assert(all[j] == before[j]);
            } else {
                assert(all[before.len() as int] == page[n - 1]);
            }
        }
    }
}

/// Two records of one transaction are told apart by their kinds, and two of one kind by their transactions.
pub proof fn keys_tell_records_apart(a: JsonView, b: JsonView)
    requires
        record_key(a) is Some,
        record_key(a) == record_key(b),
    ensures
        tran_id(a) == tran_id(b) ==> income_type(a) == income_type(b),
        income_type(a) == income_type(b) ==> tran_id(a) == tran_id(b),
{
    let (x, y) = (record_key(a)->0, record_key(b)->0);
    let (i, j) = (tran_id(a), tran_id(b));
    reveal_strlit(":");
    assert(":"@.len() == 1);
    assert(x.len() == i.len() + 1 + income_type(a).len());
    assert(y.len() == j.len() + 1 + income_type(b).len());
    if i == j {
        assert(income_type(a) =~= x.skip(i.len() as int + 1));
        assert(income_type(b) =~= y.skip(j.len() as int + 1));
    }
    if income_type(a) == income_type(b) {
        assert(i.len() == j.len());
        assert(i =~= x.take(i.len() as int));
        assert(j =~= y.take(j.len() as int));
    }
}

/// The next page starts at the latest moment of the records that were counted, and there is a next page exactly
/// where this one was full and held something new.
pub proof fn next_page_follows(reader: &IncomeReader, page: Seq<JsonView>, st: IncomeState, end: PageEnd)
    requires
        reader.after_page(page) == Some((st, end)),
    ensures
        ({
            let new = new_records(texts(reader.seen@), page, page.len() as int);
            &&& end == PageEnd::More <==> page.len() >= 1000 && new.len() > 0
            &&& st.max_time >= reader.current_start
            &&& forall|i: int|
                0 <= i < new.len() ==> ((#[trigger] new[i]).u64_field("time"@) matches Some(t) ==> st.max_time
                    >= t)
            &&& st.max_time == reader.current_start || exists|i: int|
                0 <= i < new.len() && (#[trigger] new[i]).u64_field("time"@) == Some(st.max_time)
        }),
{
    let mid = after_records(reader.state(), page, page.len() as int)->0;
    totals_are_of_new_records(reader.state(), page, page.len() as int, mid);
    lemma_latest(reader.state(), page, page.len() as int, mid);
}

proof fn lemma_latest(st: IncomeState, page: Seq<JsonView>, n: int, next: IncomeState)
    requires
        after_records(st, page, n) == Some(next),
    ensures
        next.max_time >= st.max_time,
        forall|i: int|
            0 <= i < new_records(st.seen, page, n).len() ==> ((#[trigger] new_records(
                st.seen,
                page,
                n,
            )[i]).u64_field("time"@) matches Some(t) ==> next.max_time >= t),
        next.max_time == st.max_time || exists|i: int|
            0 <= i < new_records(st.seen, page, n).len() && (#[trigger] new_records(
                st.seen,
                page,
                n,
            )[i]).u64_field("time"@) == Some(next.max_time),
    decreases n,
{
    if n > 0 {
        let before = after_records(st, page, n - 1)->0;
        totals_are_of_new_records(st, page, n - 1, before);
        lemma_latest(st, page, n - 1, before);
        let old = new_records(st.seen, page, n - 1);
        let all = new_records(st.seen, page, n);
        assert forall|i: int| 0 <= i < all.len() implies ((#[trigger] all[i]).u64_field("time"@) matches Some(t)
            ==> next.max_time >= t) by {
            if i < old.len() {
                assert(all[i] == old[i]);
            }
        }
        if next.max_time != st.max_time {
            if next.max_time == before.max_time {
                let i = choose|i: int|
                    0 <= i < old.len() && (#[trigger] old[i]).u64_field("time"@) == Some(before.max_time);
                assert(all[i] == old[i]);
            } else {
                assert(all[old.len() as int] == page[n - 1]);
            }
        }
    }
}

/// The price of an order that was filled is the one that the exchange reports, where that is above zero; else zero.
pub proof fn fill_price_is_reported(j: JsonView)
    ensures
        fill_price_of(j).units() >= 0,
        j.dec_field("avgPrice"@) matches Some(d) ==> (d.units() > 0 ==> fill_price_of(j) == d) && (d.units() <= 0
            ==> fill_price_of(j).units() == 0),
        j.dec_field("avgPrice"@) is None ==> fill_price_of(j).units() == 0,
{
    lemma_lit(0, 0);
    lemma_units_sign(zero());
}

/// A step of a symbol is what the last filter of its kind writes under its key, one where that cannot be read or no
/// filter writes it.
pub proof fn last_step_counts(filters: Seq<JsonView>, kind: Seq<char>, key: Seq<char>, n: int, i: int)
    requires
        0 <= i < n <= filters.len(),
        filters[i].text_field("filterType"@) == Some(kind),
        filters[i].text_field(key) is Some,
        forall|j: int|
            i < j < n ==> !((#[trigger] filters[j]).text_field("filterType"@) == Some(kind) && filters[j].text_field(
                key,
            ) is Some),
    ensures
        step_in(filters, kind, key, n) == (match dec_of_text(filters[i].text_field(key)->0) {
            Some(d) => d,
            None => lit(1, 0),
        }),
        step_in(filters, kind, key, 0) == lit(1, 0),
    decreases n,
{
    if i < n - 1 {
        last_step_counts(filters, kind, key, n - 1, i);
        assert(filters[n - 1] == filters[n - 1]);
    }
}

/// The rules of every symbol of the exchange's list can be found, each symbol once and with what its last entry
/// writes: the step of its quantity and the step of its price.
pub proof fn every_symbol_has_rules(items: Seq<JsonView>, n: int, i: int)
    requires
        0 <= i < n <= items.len(),
        items[i].text_field("symbol"@) is Some,
        forall|j: int| i < j < n ==> (#[trigger] items[j]).text_field("symbol"@) != items[i].text_field("symbol"@),
    ensures
        ({
            let filters = match items[i].list_field("filters"@) {
                Some(v) => v,
                None => Seq::empty(),
            };
            infos_of(items, n).contains(
                (
                    items[i].text_field("symbol"@)->0,
                    step_in(filters, "LOT_SIZE"@, "stepSize"@, filters.len() as int),
                    step_in(filters, "PRICE_FILTER"@, "tickSize"@, filters.len() as int),
                ),
            )
        }),
    decreases n,
{
    let info = info_of(items[i])->0;
    let before = infos_of(items, n - 1);
    let now = infos_of(items, n);
    if i < n - 1 {
        every_symbol_has_rules(items, n - 1, i);
        let k = choose|k: int| 0 <= k < before.len() && before[k] == info;
        if let Some(other) = info_of(items[n - 1]) {
            lemma_info_place(before, other.0, 0);
            assert(items[n - 1].text_field("symbol"@) == Some(other.0));
        }
        assert(now[k] == info);
    } else {
        lemma_info_place(before, info.0, 0);
        let at = info_place(before, info.0, 0);
        if at < before.len() {
            assert(now[at as int] == info);
        } else {
            assert(now[before.len() as int] == info);
        }
    }
}

proof fn lemma_info_place(list: Seq<(Seq<char>, Dec, Dec)>, symbol: Seq<char>, i: nat)
    requires
        i <= list.len(),
    ensures
        i <= info_place(list, symbol, i) <= list.len(),
        info_place(list, symbol, i) < list.len() ==> list[info_place(list, symbol, i) as int].0 == symbol,
        forall|j: int| i <= j < info_place(list, symbol, i) ==> (#[trigger] list[j]).0 != symbol,
    decreases list.len() - i,
{
    if i < list.len() && list[i as int].0 != symbol {
        lemma_info_place(list, symbol, i + 1);
    }
}

/// The opening price of the first candle is the second text of the first item of the list.
pub proof fn opening_price_is_first(items: Seq<JsonView>, bar: Seq<JsonView>, s: Seq<char>)
    requires
        items.len() > 0,
        items[0] == JsonView::List(bar),
        bar.len() > 1,
        bar[1] == JsonView::Text(s),
    ensures
        open_price_text(JsonView::List(items)) == Some(s),
{
}

/// A signed request names what it asks for and then the signature of exactly that, at the end; every payload ends with
/// its moment.
pub proof fn requests_are_signed(
    base: Seq<char>,
    endpoint: Seq<char>,
    params: Seq<char>,
    secret: Seq<char>,
    timestamp: u64,
)
    ensures
        ({
            let payload = params + stamp(timestamp);
            let url = signed_url(base, endpoint, payload, secret);
            let asked = base + endpoint + "?"@ + payload;
            &&& url.take(asked.len() as int) == asked
            &&& url == asked + "&signature="@ + signature_of(secret, payload)
            &&& payload.subrange(payload.len() - digits(timestamp as nat).len(), payload.len() as int) == digits(
                timestamp as nat,
            )
        }),
{
    let payload = params + stamp(timestamp);
    let url = signed_url(base, endpoint, payload, secret);
    let asked = base + endpoint + "?"@ + payload;
    assert(url.take(asked.len() as int) =~= asked);
    assert(payload.subrange(payload.len() - digits(timestamp as nat).len(), payload.len() as int) =~= digits(
        timestamp as nat,
    ));
}

/// The words for yes and no, and the statuses that are successes.
pub proof fn words_and_statuses(status: u16)
    ensures
        bool_word(true) == "true"@,
        bool_word(false) == "false"@,
        is_success(status) <==> status / 100 == 2,
{
}

/// A reading starts with nothing.
pub proof fn reading_starts_empty()
    ensures
        ({
            let s = IncomeSummary::none();
            &&& s.realized_pnl.units() == 0 && s.commission.units() == 0 && s.funding_fee.units() == 0
            &&& s.trades_count == 0 && s.records_processed == 0
        }),
{
    lemma_lit(0, 0);
    lemma_units_sign(zero());
}

/// Every record that has a transaction has a key, whether its number is written as a text or as a number; and two
/// records of one kind with different numbers have different keys.
pub proof fn numbered_records_have_keys(r: JsonView, other: JsonView)
    ensures
        r.text_field("tranId"@) matches Some(s) ==> tran_id(r) == s && (record_key(r) is Some <==> s.len() > 0),
        r.text_field("tranId"@) is None && r.u64_field("tranId"@) is Some ==> record_key(r) is Some,
        r.text_field("tranId"@) is None && r.u64_field("tranId"@) is None ==> record_key(r) is None,
        r.text_field("tranId"@) is None && other.text_field("tranId"@) is None && r.u64_field("tranId"@) is Some
            && other.u64_field("tranId"@) is Some && r.u64_field("tranId"@) != other.u64_field("tranId"@)
            ==> tran_id(r) != tran_id(other),
        r.text_field("incomeType"@) matches Some(k) ==> income_type(r) == k,
{
    if let Some(n) = r.u64_field("tranId"@) {
        numeral_round_trip(n as nat);
    }
    if let Some(n) = other.u64_field("tranId"@) {
        numeral_round_trip(n as nat);
    }
}

} // verus!
