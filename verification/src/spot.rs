//! What is asked of the spot exchange, and what its replies say. Figures that the exchange computes
//! with as floating-point numbers are handed on as it writes them.

use vstd::prelude::*;

use crate::bits::{at_most, below, lesser};
use crate::execution::{generate_signature, signed_url, Method, Request};
use crate::json::{json_of_text, parse_json, views, Json, JsonView};
use crate::text::{digits, ends, number_text, same, strip_suffixes, stripped_end};

verus! {

/// A client of the spot exchange: the key and the secret of the account, and the address.
pub struct SpotClient {
    pub api_key: String,
    pub api_secret: String,
    pub base_url: String,
}

/// The rules of a symbol, as the exchange writes them: the step of the price, the step of the
/// quantity, and every smallest value that it names for an order, in its order.
pub struct SpotSymbolRules {
    pub tick_size: Option<String>,
    pub step_size: Option<String>,
    pub min_notional: Vec<String>,
}

/// What can go wrong with a request that was answered.
#[derive(Clone, Copy, Debug, PartialEq, Eq, Structural)]
pub enum SpotError {
    /// The exchange refused the request.
    Refused,
    /// The reply is no JSON.
    NotJson,
    /// The symbol is not traded.
    UnknownSymbol,
    /// The reply lacks the rules of the symbol.
    NoFilters,
    /// The reply lacks a price.
    NoPrice,
    /// The reply lacks the number of the order.
    NoOrderId,
    /// The reply lacks the balances.
    NoBalances,
}

/// A numeral without the zeros at its end, and without the point where nothing is left behind it.
pub fn trim_numeral(s: &str) -> (r: String)
    ensures
        r@ == stripped_end(stripped_end(s@, "0"@), "."@),
{
    strip_suffixes(strip_suffixes(s, "0").as_str(), ".")
}

/// The payload of a signed request.
pub open spec fn spot_payload(params: Seq<char>, timestamp: u64) -> Seq<char> {
    if params.len() == 0 {
        "recvWindow=10000&timestamp="@ + digits(timestamp as nat)
    } else {
        params + "&recvWindow=10000&timestamp="@ + digits(timestamp as nat)
    }
}

impl SpotClient {
    /// A client with a key and a secret, for an address or the exchange's main one.
    pub fn new(api_key: &str, api_secret: &str, base_url: Option<&str>) -> (r: SpotClient)
        ensures
            r.api_key@ == api_key@,
            r.api_secret@ == api_secret@,
            r.base_url@ == (match base_url {
                Some(u) => u@,
                None => "https://api.binance.com"@,
            }),
    {
        let url = match base_url {
            Some(u) => u,
            None => "https://api.binance.com",
        };
        SpotClient {
            api_key: api_key.to_string(),
            api_secret: api_secret.to_string(),
            base_url: url.to_string(),
        }
    }

    /// A signed request with these parameters.
    pub open spec fn signed(
        &self,
        r: Request,
        method: Method,
        endpoint: Seq<char>,
        params: Seq<char>,
        timestamp: u64,
    ) -> bool {
        &&& r.method == method
        &&& r.with_key
        &&& r.url@ == signed_url(
            self.base_url@,
            endpoint,
            spot_payload(params, timestamp),
            self.api_secret@,
        )
    }

    fn signed_request(&self, method: Method, endpoint: &str, params: &str, timestamp: u64) -> (r:
        Request)
        ensures
            self.signed(r, method, endpoint@, params@, timestamp),
    {
        let mut payload = params.to_string();
        if params.is_empty() {
            payload = "recvWindow=10000&timestamp=".to_string();
        } else {
            payload.append("&recvWindow=10000&timestamp=");
        }
        payload.append(number_text(timestamp as u128).as_str());
        let signature = generate_signature(self.api_secret.as_str(), payload.as_str());
        let mut url = self.base_url.clone();
        url.append(endpoint);
        url.append("?");
        url.append(payload.as_str());
        url.append("&signature=");
        url.append(signature.as_str());
        Request { method, url, with_key: true }
    }

    /// Asks for the rules of a symbol.
    pub fn symbol_rules(&self, symbol: &str) -> (r: Request)
        ensures
            r.method == Method::Get && !r.with_key,
            r.url@ == self.base_url@ + "/api/v3/exchangeInfo?symbol="@ + symbol@,
    {
        let mut url = self.base_url.clone();
        url.append("/api/v3/exchangeInfo?symbol=");
        url.append(symbol);
        Request { method: Method::Get, url, with_key: false }
    }

    /// Asks for the last price of a symbol.
    pub fn last_price(&self, symbol: &str) -> (r: Request)
        ensures
            r.method == Method::Get && !r.with_key,
            r.url@ == self.base_url@ + "/api/v3/ticker/price?symbol="@ + symbol@,
    {
        let mut url = self.base_url.clone();
        url.append("/api/v3/ticker/price?symbol=");
        url.append(symbol);
        Request { method: Method::Get, url, with_key: false }
    }

    /// Places an order with a limit, good till cancelled. Quantity and price are numerals with any
    /// number of zeros at their end.
    pub fn place_limit(
        &self,
        symbol: &str,
        side: &str,
        quantity: &str,
        price: &str,
        timestamp: u64,
    ) -> (r: Request)
        ensures
            self.signed(
                r,
                Method::Post,
                "/api/v3/order"@,
                "symbol="@ + symbol@ + "&side="@ + side@
                    + "&type=LIMIT&timeInForce=GTC&quantity="@ + stripped_end(
                    stripped_end(quantity@, "0"@),
                    "."@,
                ) + "&price="@ + stripped_end(stripped_end(price@, "0"@), "."@),
                timestamp,
            ),
    {
        let mut p = "symbol=".to_string();
        p.append(symbol);
        p.append("&side=");
        p.append(side);
        p.append("&type=LIMIT&timeInForce=GTC&quantity=");
        p.append(trim_numeral(quantity).as_str());
        p.append("&price=");
        p.append(trim_numeral(price).as_str());
        self.signed_request(Method::Post, "/api/v3/order", p.as_str(), timestamp)
    }

    /// Sells at the market.
    pub fn market_sell(&self, symbol: &str, quantity: &str, timestamp: u64) -> (r: Request)
        ensures
            self.signed(
                r,
                Method::Post,
                "/api/v3/order"@,
                "symbol="@ + symbol@ + "&side=SELL&type=MARKET&quantity="@ + stripped_end(
                    stripped_end(quantity@, "0"@),
                    "."@,
                ),
                timestamp,
            ),
    {
        let mut p = "symbol=".to_string();
        p.append(symbol);
        p.append("&side=SELL&type=MARKET&quantity=");
        p.append(trim_numeral(quantity).as_str());
        self.signed_request(Method::Post, "/api/v3/order", p.as_str(), timestamp)
    }

    /// Cancels an order.
    pub fn cancel_order(&self, symbol: &str, order_id: u64, timestamp: u64) -> (r: Request)
        ensures
            self.signed(
                r,
                Method::Delete,
                "/api/v3/order"@,
                "symbol="@ + symbol@ + "&orderId="@ + digits(order_id as nat),
                timestamp,
            ),
    {
        let mut p = "symbol=".to_string();
        p.append(symbol);
        p.append("&orderId=");
        p.append(number_text(order_id as u128).as_str());
        self.signed_request(Method::Delete, "/api/v3/order", p.as_str(), timestamp)
    }

    /// Asks for an order.
    pub fn get_order(&self, symbol: &str, order_id: u64, timestamp: u64) -> (r: Request)
        ensures
            self.signed(
                r,
                Method::Get,
                "/api/v3/order"@,
                "symbol="@ + symbol@ + "&orderId="@ + digits(order_id as nat),
                timestamp,
            ),
    {
        let mut p = "symbol=".to_string();
        p.append(symbol);
        p.append("&orderId=");
        p.append(number_text(order_id as u128).as_str());
        self.signed_request(Method::Get, "/api/v3/order", p.as_str(), timestamp)
    }

    /// Asks for the open orders of a symbol.
    pub fn open_order_ids(&self, symbol: &str, timestamp: u64) -> (r: Request)
        ensures
            self.signed(
                r,
                Method::Get,
                "/api/v3/openOrders"@,
                "symbol="@ + symbol@,
                timestamp,
            ),
    {
        let mut p = "symbol=".to_string();
        p.append(symbol);
        proof {
            reveal_strlit("symbol=");
        }
        self.signed_request(Method::Get, "/api/v3/openOrders", p.as_str(), timestamp)
    }

    /// Asks for the balances.
    pub fn free_balance(&self, timestamp: u64) -> (r: Request)
        ensures
            self.signed(r, Method::Get, "/api/v3/account"@, ""@, timestamp),
    {
        self.signed_request(Method::Get, "/api/v3/account", "", timestamp)
    }
}

/// The value of a signed request that was answered.
pub fn spot_reply(success: bool, text: &str) -> (r: Result<Json, SpotError>)
    ensures
        match r {
            Ok(j) => success && json_of_text(text@) == Some(j@),
            Err(SpotError::Refused) => !success,
            Err(SpotError::NotJson) => success && json_of_text(text@) is None,
            Err(_) => false,
        },
{
    if !success {
        return Err(SpotError::Refused);
    }
    match parse_json(text) {
        Some(j) => Ok(j),
        None => Err(SpotError::NotJson),
    }
}

/// The filters of the first symbol in a reply.
pub open spec fn filters_of(j: JsonView) -> Option<Seq<JsonView>> {
    match j.list_field("symbols"@) {
        Some(v) => if v.len() > 0 { v[0].list_field("filters"@) } else { None },
        None => None,
    }
}

/// What the last filter of a kind writes under a key, among the first `n`.
pub open spec fn last_of_kind(
    filters: Seq<JsonView>,
    kind: Seq<char>,
    key: Seq<char>,
    n: int,
) -> Option<Seq<char>>
    decreases n,
{
    if n <= 0 {
        None
    } else if filters[n - 1].text_field("filterType"@) == Some(kind) {
        filters[n - 1].text_field(key)
    } else {
        last_of_kind(filters, kind, key, n - 1)
    }
}

/// The smallest values that the first `n` filters name for an order.
pub open spec fn notionals(filters: Seq<JsonView>, n: int) -> Seq<Seq<char>>
    decreases n,
{
    if n <= 0 {
        Seq::empty()
    } else {
        let before = notionals(filters, n - 1);
        let f = filters[n - 1];
        let kind = f.text_field("filterType"@);
        let text = f.text_field("minNotional"@);
        if (kind == Some("NOTIONAL"@) || kind == Some("MIN_NOTIONAL"@)) && text is Some {
            before.push(text->0)
        } else {
            before
        }
    }
}

/// A text, where there is one, is what is expected.
pub open spec fn is_text(r: Option<String>, s: Option<Seq<char>>) -> bool {
    match (r, s) {
        (Some(a), Some(b)) => a@ == b,
        (None, None) => true,
        _ => false,
    }
}

fn owned(s: Option<&str>) -> (r: Option<String>)
    ensures
        is_text(
            r,
            match s {
                Some(t) => Some(t@),
                None => None,
            },
        ),
{
    match s {
        Some(t) => Some(t.to_string()),
        None => None,
    }
}

/// The rules of a symbol in a reply.
pub fn rules_reply(text: &str) -> (r: Result<SpotSymbolRules, SpotError>)
    ensures
        match r {
            Ok(rules) => json_of_text(text@) matches Some(j) && j.i64_field("code"@) != Some(
                -1121i64,
            ) && (filters_of(j) matches Some(f) && is_text(
                rules.tick_size,
                last_of_kind(f, "PRICE_FILTER"@, "tickSize"@, f.len() as int),
            ) && is_text(
                rules.step_size,
                last_of_kind(f, "LOT_SIZE"@, "stepSize"@, f.len() as int),
            ) && crate::text::texts(rules.min_notional@) == notionals(f, f.len() as int)),
            Err(SpotError::NotJson) => json_of_text(text@) is None,
            Err(SpotError::UnknownSymbol) => json_of_text(text@) matches Some(j) && j.i64_field(
                "code"@,
            ) == Some(-1121i64),
            Err(SpotError::NoFilters) => json_of_text(text@) matches Some(j) && j.i64_field(
                "code"@,
            ) != Some(-1121i64) && filters_of(j) is None,
            Err(_) => false,
        },
{
    let j = match parse_json(text) {
        Some(j) => j,
        None => return Err(SpotError::NotJson),
    };
    if let Some(code) = j.i64_field("code") {
        if code == -1121 {
            return Err(SpotError::UnknownSymbol);
        }
    }
    let symbols = match j.list_field("symbols") {
        Some(v) => v,
        None => return Err(SpotError::NoFilters),
    };
    if symbols.len() == 0 {
        return Err(SpotError::NoFilters);
    }
    assert(views(symbols@)[0] == symbols@[0]@);
    let filters = match symbols[0].list_field("filters") {
        Some(v) => v,
        None => return Err(SpotError::NoFilters),
    };
    let ghost all = views(filters@);
    let mut rules = SpotSymbolRules { tick_size: None, step_size: None, min_notional: Vec::new() };
    assert(crate::text::texts(rules.min_notional@) =~= Seq::empty());
    let mut n: usize = 0;
    while n < filters.len()
        invariant
            n <= filters.len(),
            all == views(filters@),
            is_text(rules.tick_size, last_of_kind(all, "PRICE_FILTER"@, "tickSize"@, n as int)),
            is_text(rules.step_size, last_of_kind(all, "LOT_SIZE"@, "stepSize"@, n as int)),
            crate::text::texts(rules.min_notional@) == notionals(all, n as int),
        decreases filters.len() - n,
    {
        let f = &filters[n];
        assert(all[n as int] == f@);
        if let Some(kind) = f.text_field("filterType") {
            if same(kind, "PRICE_FILTER") {
                rules.tick_size = owned(f.text_field("tickSize"));
            }
            if same(kind, "LOT_SIZE") {
                rules.step_size = owned(f.text_field("stepSize"));
            }
            if same(kind, "NOTIONAL") || same(kind, "MIN_NOTIONAL") {
                if let Some(t) = f.text_field("minNotional") {
                    let ghost before = crate::text::texts(rules.min_notional@);
                    rules.min_notional.push(t.to_string());
                    assert(crate::text::texts(rules.min_notional@) =~= before.push(t@));
                }
            }
        }
        n = n + 1;
    }
    Ok(rules)
}

/// Whether the rules of a symbol are complete: neither step is zero or less. Both are given by their
/// bits.
pub fn rules_complete(tick: u64, step: u64) -> (r: bool)
    ensures
        r == (!at_most(tick, 0) && !at_most(step, 0)),
{
    !at_most(tick, 0) && !at_most(step, 0)
}

/// The price in a reply, as the exchange writes it.
pub fn price_reply(text: &str) -> (r: Result<String, SpotError>)
    ensures
        match r {
            Ok(p) => json_of_text(text@) matches Some(j) && j.text_field("price"@) == Some(p@),
            Err(SpotError::NotJson) => json_of_text(text@) is None,
            Err(SpotError::NoPrice) => json_of_text(text@) matches Some(j) && j.text_field(
                "price"@,
            ) is None,
            Err(_) => false,
        },
{
    let j = match parse_json(text) {
        Some(j) => j,
        None => return Err(SpotError::NotJson),
    };
    match j.text_field("price") {
        Some(p) => Ok(p.to_string()),
        None => Err(SpotError::NoPrice),
    }
}

/// The number of an order that was placed.
pub fn order_id_reply(j: &Json) -> (r: Result<u64, SpotError>)
    ensures
        match r {
            Ok(id) => j@.u64_field("orderId"@) == Some(id),
            Err(e) => e == SpotError::NoOrderId && j@.u64_field("orderId"@) is None,
        },
{
    match j.u64_field("orderId") {
        Some(id) => Ok(id),
        None => Err(SpotError::NoOrderId),
    }
}

/// The state of an order.
#[derive(Clone, Copy, Debug, PartialEq, Eq, Structural)]
pub enum OrderStatus {
    /// Filled as a whole.
    Filled,
    /// Ended by somebody before it was filled: cancelled, expired or rejected.
    Ended,
    /// Anything else.
    Other,
}

/// The state that a word is.
pub open spec fn status_of(word: Seq<char>) -> OrderStatus {
    if word == "FILLED"@ {
        OrderStatus::Filled
    } else if word == "CANCELED"@ || word == "EXPIRED"@ || word == "REJECTED"@ {
        OrderStatus::Ended
    } else {
        OrderStatus::Other
    }
}

/// An order as the exchange reports it: its state, what of it was executed, and for how much.
pub struct OrderReport {
    pub status: OrderStatus,
    pub executed: Option<String>,
    pub quote: Option<String>,
}

/// Reads the report on an order.
pub fn order_report(j: &Json) -> (r: OrderReport)
    ensures
        r.status == status_of(
            match j@.text_field("status"@) {
                Some(s) => s,
                None => ""@,
            },
        ),
        is_text(r.executed, j@.text_field("executedQty"@)),
        is_text(r.quote, j@.text_field("cummulativeQuoteQty"@)),
{
    let word = match j.text_field("status") {
        Some(s) => s,
        None => "",
    };
    let status = if same(word, "FILLED") {
        OrderStatus::Filled
    } else if same(word, "CANCELED") || same(word, "EXPIRED") || same(word, "REJECTED") {
        OrderStatus::Ended
    } else {
        OrderStatus::Other
    };
    OrderReport {
        status,
        executed: owned(j.text_field("executedQty")),
        quote: owned(j.text_field("cummulativeQuoteQty")),
    }
}

/// The numbers of the first `n` orders in a list.
pub open spec fn ids_of(items: Seq<JsonView>, n: int) -> Seq<u64>
    decreases n,
{
    if n <= 0 {
        Seq::empty()
    } else {
        match items[n - 1].u64_field("orderId"@) {
            Some(id) => ids_of(items, n - 1).push(id),
            None => ids_of(items, n - 1),
        }
    }
}

/// The numbers of the open orders in a reply, none where it is no list.
pub fn open_ids(j: &Json) -> (r: Vec<u64>)
    ensures
        r@ == ids_of(j@.items(), j@.items().len() as int),
{
    let mut ids: Vec<u64> = Vec::new();
    if let Some(items) = j.list() {
        let ghost all = views(items@);
        let mut n: usize = 0;
        while n < items.len()
            invariant
                n <= items.len(),
                all == views(items@),
                ids@ == ids_of(all, n as int),
            decreases items.len() - n,
        {
            assert(all[n as int] == items@[n as int]@);
            if let Some(id) = items[n].u64_field("orderId") {
                ids.push(id);
            }
            n = n + 1;
        }
    }
    ids
}

/// What is free of an asset, in the list of balances from `i` on: nothing where it is not listed.
pub open spec fn free_of(items: Seq<JsonView>, asset: Seq<char>, i: int) -> Option<Option<Seq<char>>>
    decreases items.len() - i,
{
    if i < 0 || i >= items.len() {
        None
    } else if items[i].text_field("asset"@) == Some(asset) {
        Some(items[i].text_field("free"@))
    } else {
        free_of(items, asset, i + 1)
    }
}

/// What is free of an asset, as the exchange writes it; nothing where it is not listed or the exchange
/// writes nothing for it.
pub fn balance_reply(j: &Json, asset: &str) -> (r: Result<Option<String>, SpotError>)
    ensures
        match r {
            Ok(free) => j@.list_field("balances"@) matches Some(items) && is_text(
                free,
                match free_of(items, asset@, 0) {
                    Some(text) => text,
                    None => None,
                },
            ),
            Err(e) => e == SpotError::NoBalances && j@.list_field("balances"@) is None,
        },
{
    let items = match j.list_field("balances") {
        Some(v) => v,
        None => return Err(SpotError::NoBalances),
    };
    let ghost all = views(items@);
    let mut i: usize = 0;
    while i < items.len()
        invariant
            i <= items.len(),
            all == views(items@),
            j@.list_field("balances"@) == Some(all),
            free_of(all, asset@, 0) == free_of(all, asset@, i as int),
        decreases items.len() - i,
    {
        assert(all[i as int] == items@[i as int]@);
        let found = match items[i].text_field("asset") {
            Some(s) => same(s, asset),
            None => false,
        };
        if found {
            return Ok(owned(items[i].text_field("free")));
        }
        i = i + 1;
    }
    Ok(None)
}

/// Whether an order is large enough: its value is no less than the least that the exchange takes.
pub fn is_large_enough(value: u64, min_notional: u64) -> (r: bool)
    ensures
        r == !below(value, min_notional),
{
    !below(value, min_notional)
}

/// How much of the coins that a grid holds can be sold: no more than what is free, where that is known.
/// Nothing where none are left.
pub fn sellable(held: u64, free: Option<u64>) -> (r: Option<u64>)
    ensures
        ({
            let qty = match free {
                Some(f) => lesser(held, f),
                None => held,
            };
            r == if at_most(qty, 0) { None } else { Some(qty) }
        }),
{
    let qty: u64 = match free {
        Some(f) => lesser(held, f),
        None => held,
    };
    if at_most(qty, 0) { None } else { Some(qty) }
}

/// The words for the state of an order: one that was filled, three for one that has ended, and any other.
pub proof fn states_have_words(word: Seq<char>)
    ensures
        status_of(word) == OrderStatus::Filled <==> word == "FILLED"@,
        status_of(word) == OrderStatus::Ended <==> word == "CANCELED"@ || word == "EXPIRED"@ || word == "REJECTED"@,
        "FILLED"@ != "CANCELED"@ && "FILLED"@ != "EXPIRED"@ && "FILLED"@ != "REJECTED"@,
{
    reveal_strlit("FILLED");
    reveal_strlit("CANCELED");
    reveal_strlit("EXPIRED");
    reveal_strlit("REJECTED");
    assert("FILLED"@.len() == 6 && "CANCELED"@.len() == 8 && "EXPIRED"@.len() == 7 && "REJECTED"@.len() == 8);
}

/// The numbers of the open orders are those of all orders of the list that have one, and no others.
pub proof fn all_ids_are_read(items: Seq<JsonView>, n: int)
    requires
        0 <= n <= items.len(),
    ensures
        forall|i: int|
            0 <= i < n && (#[trigger] items[i]).u64_field("orderId"@) is Some ==> ids_of(items, n).contains(
                items[i].u64_field("orderId"@)->0,
            ),
        forall|k: int|
            #![trigger ids_of(items, n)[k]]
            0 <= k < ids_of(items, n).len() ==> exists|i: int|
                0 <= i < n && (#[trigger] items[i]).u64_field("orderId"@) == Some(ids_of(items, n)[k]),
    decreases n,
{
    if n > 0 {
        all_ids_are_read(items, n - 1);
        let before = ids_of(items, n - 1);
        let now = ids_of(items, n);
        assert forall|i: int| 0 <= i < n && (#[trigger] items[i]).u64_field("orderId"@) is Some implies now.contains(
            items[i].u64_field("orderId"@)->0,
        ) by {
            let id = items[i].u64_field("orderId"@)->0;
            if i < n - 1 {
                let k = choose|k: int| 0 <= k < before.len() && before[k] == id;
                assert(now[k] == id);
            } else {
                assert(now[before.len() as int] == id);
            }
        }
        assert forall|k: int| #![trigger now[k]] 0 <= k < now.len() implies exists|i: int|
            0 <= i < n && (#[trigger] items[i]).u64_field("orderId"@) == Some(now[k]) by {
            if k < before.len() {
                assert(now[k] == before[k]);
                let i = choose|i: int|
                    0 <= i < n - 1 && (#[trigger] items[i]).u64_field("orderId"@) == Some(before[k]);
                assert(items[i] == items[i]);
            } else {
                assert(items[n - 1] == items[n - 1]);
            }
        }
    }
}

/// What is free of an asset is what its first entry in the list says, and of no other asset.
pub proof fn balance_is_of_asset(items: Seq<JsonView>, asset: Seq<char>, i: int)
    requires
        0 <= i <= items.len(),
    ensures
        free_of(items, asset, i) is None <==> forall|j: int|
            i <= j < items.len() ==> (#[trigger] items[j]).text_field("asset"@) != Some(asset),
        forall|j: int|
            i <= j < items.len() && (#[trigger] items[j]).text_field("asset"@) == Some(asset) && (forall|k: int|
                i <= k < j ==> (#[trigger] items[k]).text_field("asset"@) != Some(asset)) ==> free_of(items, asset, i)
                == Some(items[j].text_field("free"@)),
    decreases items.len() - i,
{
    if i < items.len() {
        balance_is_of_asset(items, asset, i + 1);
        assert(items[i] == items[i]);
    }
}

/// What the filters say of a step is what the last filter of its kind says.
pub proof fn last_filter_counts(filters: Seq<JsonView>, kind: Seq<char>, key: Seq<char>, n: int, i: int)
    requires
        0 <= i < n <= filters.len(),
        filters[i].text_field("filterType"@) == Some(kind),
        forall|j: int| i < j < n ==> (#[trigger] filters[j]).text_field("filterType"@) != Some(kind),
    ensures
        last_of_kind(filters, kind, key, n) == filters[i].text_field(key),
    decreases n,
{
    if i < n - 1 {
        last_filter_counts(filters, kind, key, n - 1, i);
        assert(filters[n - 1] == filters[n - 1]);
    }
}

/// The smallest values for an order are those that filters of the two kinds name, all of them and in their order.
pub proof fn notionals_are_named(filters: Seq<JsonView>, n: int)
    requires
        0 < n <= filters.len(),
    ensures
        ({
            let f = filters[n - 1];
            let named = (f.text_field("filterType"@) == Some("NOTIONAL"@) || f.text_field("filterType"@) == Some(
                "MIN_NOTIONAL"@,
            )) && f.text_field("minNotional"@) is Some;
            &&& named ==> notionals(filters, n).len() == notionals(filters, n - 1).len() + 1 && notionals(
                filters,
                n,
            ).last() == f.text_field("minNotional"@)->0 && notionals(filters, n).drop_last() == notionals(
                filters,
                n - 1,
            )
            &&& !named ==> notionals(filters, n) == notionals(filters, n - 1)
        }),
{
    let f = filters[n - 1];
    let before = notionals(filters, n - 1);
    if let Some(t) = f.text_field("minNotional"@) {
        assert(before.push(t).drop_last() =~= before);
    }
}

/// The payload of a signed request ends with its moment and the window in which it is valid, behind its parameters.
pub proof fn payload_is_stamped(params: Seq<char>, timestamp: u64)
    ensures
        params.len() > 0 ==> spot_payload(params, timestamp) == params + "&"@ + spot_payload(
            Seq::empty(),
            timestamp,
        ),
        ends(spot_payload(params, timestamp), "timestamp="@ + digits(timestamp as nat)),
{
    reveal_strlit("&");
    reveal_strlit("recvWindow=10000&timestamp=");
    reveal_strlit("&recvWindow=10000&timestamp=");
    reveal_strlit("timestamp=");
    let d = digits(timestamp as nat);
    let tail = "timestamp="@ + d;
    assert("&recvWindow=10000&timestamp="@ =~= "&"@ + "recvWindow=10000&timestamp="@);
    let p = spot_payload(params, timestamp);
    if params.len() > 0 {
        assert(p =~= params + "&"@ + spot_payload(Seq::empty(), timestamp));
    }
    assert(p.subrange(p.len() - tail.len(), p.len() as int) =~= tail);
}

} // verus!
