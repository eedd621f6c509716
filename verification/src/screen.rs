//! What the scanners share: which symbols they look at, how figures are ranked, and when a report is
//! due. Figures are doubles, held by their bits.

use vstd::prelude::*;

use crate::bits::{double_place, is_number, place_of_double};
use crate::json::{list_of_text, parse_list, views, Json, JsonView};
use crate::order::{is_order, ranks, sort_places};
use crate::text::{
    chars_of, ends, ends_with, padded, padded_text, same, starts, starts_with,
};

verus! {

/// A symbol that trades against USDT, without an expiry.
pub open spec fn plain_usdt(s: Seq<char>) -> bool {
    ends(s, "USDT"@) && !s.contains('_')
}

/// A coin that trades against USDT: neither gold nor silver.
pub open spec fn coin_usdt(s: Seq<char>) -> bool {
    plain_usdt(s) && !starts(s, "XAU"@) && !starts(s, "XAG"@)
}

/// Whether a symbol trades against USDT, without an expiry.
pub fn is_plain_usdt(s: &str) -> (r: bool)
    ensures
        r == plain_usdt(s@),
{
    if !ends_with(s, "USDT") {
        return false;
    }
    let v = chars_of(s);
    let mut i: usize = 0;
    while i < v.len()
        invariant
            i <= v.len(),
            v@ == s@,
            forall|k: int| 0 <= k < i ==> #[trigger] s@[k] != '_',
        decreases v.len() - i,
    {
        if v[i] == '_' {
            assert(s@[i as int] == '_');
            return false;
        }
        i = i + 1;
    }
    true
}

/// Whether a symbol is a coin that trades against USDT.
pub fn is_coin_usdt(s: &str) -> (r: bool)
    ensures
        r == coin_usdt(s@),
{
    is_plain_usdt(s) && !starts_with(s, "XAU") && !starts_with(s, "XAG")
}

/// The place of a double among all doubles, that of zero for what is no number.
pub open spec fn place_or_zero(bits: u64) -> int {
    match place_of_double(bits) {
        Some(k) => k,
        None => 0,
    }
}

/// The places of several doubles among all doubles.
pub open spec fn places(v: Seq<u64>) -> Seq<int> {
    v.map_values(|b: u64| place_or_zero(b))
}

fn keys_of(v: &Vec<u64>) -> (r: Vec<i64>)
    ensures
        ranks(r@) == places(v@),
{
    let mut out: Vec<i64> = Vec::new();
    let mut i: usize = 0;
    while i < v.len()
        invariant
            i <= v.len(),
            out@.len() == i,
            forall|k: int| 0 <= k < i ==> #[trigger] out@[k] == place_or_zero(v@[k]),
        decreases v.len() - i,
    {
        let key: i64 = match double_place(v[i]) {
            Some(k) => k,
            None => 0,
        };
        out.push(key);
        i = i + 1;
    }
    assert(ranks(out@) =~= places(v@));
    out
}

/// The order of several doubles, the largest first.
pub fn rank_down(v: &Vec<u64>) -> (order: Vec<usize>)
    ensures
        is_order(order@, places(v@), true),
{
    sort_places(&keys_of(v), true)
}

/// The double in the middle of several, by size: the upper one of two.
pub fn middle(v: &Vec<u64>) -> (r: u64)
    requires
        v@.len() > 0,
    ensures
        exists|order: Seq<usize>|
            #[trigger] is_order(order, places(v@), false) && r == v@[order[(v@.len() / 2) as int] as int],
{
    let order = sort_places(&keys_of(v), false);
    let half: usize = v.len() / 2;
    assert(is_order(order@, places(v@), false));
    v[order[half]]
}

/// The name of a day: year, month and day.
pub open spec fn day_name(year: u32, month: u32, day: u32) -> Seq<char> {
    padded(year as nat, 4) + "-"@ + padded(month as nat, 2) + "-"@ + padded(day as nat, 2)
}

/// The name of a day: year, month and day.
pub fn day_key(year: u32, month: u32, day: u32) -> (r: String)
    ensures
        r@ == day_name(year, month, day),
{
    let mut s = padded_text(year as u128, 4);
    s.append("-");
    s.append(padded_text(month as u128, 2).as_str());
    s.append("-");
    s.append(padded_text(day as u128, 2).as_str());
    s
}

/// Whether the report of a day is due: it is eight in the evening or later, and it was not sent.
pub fn daily_due(hour: u32, sent: &str, day: &str) -> (r: bool)
    ensures
        r == (hour >= 20 && sent@ != day@),
{
    hour >= 20 && !same(sent, day)
}

/// Whether a symbol is left alone: less than so many seconds have passed since a moment.
pub fn is_cooling(since: Option<u64>, now: u64, seconds: u64) -> (r: bool)
    ensures
        r == (since matches Some(t) && (now < t || now - t < seconds) && seconds > 0),
{
    match since {
        Some(t) => seconds > 0 && (now < t || now - t < seconds),
        None => false,
    }
}

/// Whether a text, where there is one, is what is expected.
pub open spec fn is_cell(r: Option<String>, s: Option<Seq<char>>) -> bool {
    match (r, s) {
        (Some(a), Some(b)) => a@ == b,
        (None, None) => true,
        _ => false,
    }
}

/// A candle as the exchange writes it: its opening, highest, lowest and closing price, and its turnover.
pub struct Candle {
    pub open: Option<String>,
    pub high: Option<String>,
    pub low: Option<String>,
    pub close: Option<String>,
    pub turnover: Option<String>,
}

/// Whether a candle is what an item of the exchange's list writes.
pub open spec fn is_candle(c: Candle, j: JsonView) -> bool {
    &&& is_cell(c.open, j.item_text(1))
    &&& is_cell(c.high, j.item_text(2))
    &&& is_cell(c.low, j.item_text(3))
    &&& is_cell(c.close, j.item_text(4))
    &&& is_cell(c.turnover, j.item_text(7))
}

fn cell(s: Option<&str>) -> (r: Option<String>)
    ensures
        is_cell(
            r,
            match s {
                Some(t) => Some(t@),
                None => None,
            },
        ),
{
    match s {
        Some(t) => Some(t.to_string()),
        None => None,
    }
}

/// The candles in a reply; nothing where it is no list.
pub fn read_candles(text: &str) -> (r: Option<Vec<Candle>>)
    ensures
        match r {
            Some(v) => list_of_text(text@) matches Some(items) && v@.len() == items.len() && forall|
                i: int,
            |
                0 <= i < items.len() ==> is_candle(#[trigger] v@[i], items[i]),
            None => list_of_text(text@) is None,
        },
{
    let items = match parse_list(text) {
        Some(v) => v,
        None => return None,
    };
    let ghost all = views(items@);
    let mut out: Vec<Candle> = Vec::new();
    let mut n: usize = 0;
    while n < items.len()
        invariant
            n <= items.len(),
            all == views(items@),
            out@.len() == n,
            forall|i: int| 0 <= i < n ==> is_candle(#[trigger] out@[i], all[i]),
        decreases items.len() - n,
    {
        let item = &items[n];
        assert(all[n as int] == item@);
        out.push(
            Candle {
                open: cell(item.item_text(1)),
                high: cell(item.item_text(2)),
                low: cell(item.item_text(3)),
                close: cell(item.item_text(4)),
                turnover: cell(item.item_text(7)),
            },
        );
        n = n + 1;
    }
    Some(out)
}

/// A row of a list of the exchange: the symbol, empty where it has none, and the texts under some keys.
pub struct Row {
    pub symbol: String,
    pub cells: Vec<Option<String>>,
}

/// Whether a row is what an item of the exchange's list writes under some keys.
pub open spec fn is_row(r: Row, j: JsonView, keys: Seq<&str>) -> bool {
    &&& r.symbol@ == match j.text_field("symbol"@) {
        Some(s) => s,
        None => ""@,
    }
    &&& r.cells@.len() == keys.len()
    &&& forall|k: int|
        0 <= k < keys.len() ==> is_cell(#[trigger] r.cells@[k], j.text_field(keys[k]@))
}

fn read_row(j: &Json, keys: &[&str]) -> (r: Row)
    ensures
        is_row(r, j@, keys@),
{
    let symbol = match j.text_field("symbol") {
        Some(s) => s,
        None => "",
    };
    let mut cells: Vec<Option<String>> = Vec::new();
    let mut k: usize = 0;
    while k < keys.len()
        invariant
            k <= keys.len(),
            cells@.len() == k,
            forall|i: int| 0 <= i < k ==> is_cell(#[trigger] cells@[i], j@.text_field(keys@[i]@)),
        decreases keys.len() - k,
    {
        cells.push(cell(j.text_field(keys[k])));
        k = k + 1;
    }
    Row { symbol: symbol.to_string(), cells }
}

/// The rows of a list in a reply, with the texts under some keys; nothing where it is no list.
pub fn read_rows(text: &str, keys: &[&str]) -> (r: Option<Vec<Row>>)
    ensures
        match r {
            Some(v) => list_of_text(text@) matches Some(items) && v@.len() == items.len() && forall|
                i: int,
            |
                0 <= i < items.len() ==> is_row(#[trigger] v@[i], items[i], keys@),
            None => list_of_text(text@) is None,
        },
{
    let items = match parse_list(text) {
        Some(v) => v,
        None => return None,
    };
    let ghost all = views(items@);
    let mut out: Vec<Row> = Vec::new();
    let mut n: usize = 0;
    while n < items.len()
        invariant
            n <= items.len(),
            all == views(items@),
            out@.len() == n,
            forall|i: int| 0 <= i < n ==> is_row(#[trigger] out@[i], all[i], keys@),
        decreases items.len() - n,
    {
        assert(all[n as int] == items@[n as int]@);
        out.push(read_row(&items[n], keys));
        n = n + 1;
    }
    Some(out)
}

/// A symbol against USDT ends with it and has no expiry; a coin is neither gold nor silver.
pub proof fn symbols_are_told_apart(s: Seq<char>)
    ensures
        plain_usdt(s) <==> ends(s, "USDT"@) && forall|i: int| 0 <= i < s.len() ==> #[trigger] s[i] != '_',
        coin_usdt(s) <==> plain_usdt(s) && !starts(s, "XAU"@) && !starts(s, "XAG"@),
{
    if s.contains('_') {
        let k = choose|k: int| 0 <= k < s.len() && s[k] == '_';
        assert(s[k] == '_');
    }
    assert forall|i: int| 0 <= i < s.len() && !s.contains('_') implies #[trigger] s[i] != '_' by {
        if s[i] == '_' {
            assert(s.contains('_'));
        }
    }
}

/// What is no number ranks as zero, any number by its place among all numbers.
pub proof fn ranks_are_places(bits: u64)
    ensures
        is_number(bits) ==> Some(place_or_zero(bits)) == place_of_double(bits),
        !is_number(bits) ==> place_or_zero(bits) == 0,
{
}

} // verus!
