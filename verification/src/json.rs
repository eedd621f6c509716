//! JSON values as the library reads them: what a reply of the exchange holds, and the fields and
//! items that the rest of the library asks of it.

use serde_json::Value;
use vstd::prelude::*;

use crate::decimal::{dec_of_text, parse_dec, Dec};

verus! {

/// A JSON value. A number is kept as the integers that it can be read as, and as its text.
pub enum Json {
    Null,
    Bool(bool),
    Number { unsigned: Option<u64>, signed: Option<i64>, text: String },
    Text(String),
    List(Vec<Json>),
    Record(Vec<(String, Json)>),
}

/// What a JSON value is.
pub ghost enum JsonView {
    Null,
    Bool(bool),
    Number { unsigned: Option<u64>, signed: Option<i64>, text: Seq<char> },
    Text(Seq<char>),
    List(Seq<JsonView>),
    Record(Seq<(Seq<char>, JsonView)>),
}

/// `serde_json::Value`, the value that the outside parser builds.
#[verifier::external_type_specification]
#[verifier::external_body]
pub struct OutsideValue(serde_json::Value);

/// What a value is, item by item.
pub open spec fn json_view(j: Json) -> JsonView
    decreases j,
{
    match j {
        Json::Null => JsonView::Null,
        Json::Bool(b) => JsonView::Bool(b),
        Json::Number { unsigned, signed, text } => JsonView::Number {
            unsigned,
            signed,
            text: text@,
        },
        Json::Text(s) => JsonView::Text(s@),
        Json::List(v) => JsonView::List(
            Seq::new(
                v@.len(),
                |i: int|
                    if 0 <= i < v@.len() {
                        json_view(v@[i])
                    } else {
                        arbitrary()
                    },
            ),
        ),
        Json::Record(v) => JsonView::Record(
            Seq::new(
                v@.len(),
                |i: int|
                    if 0 <= i < v@.len() {
                        (v@[i].0@, json_view(v@[i].1))
                    } else {
                        arbitrary()
                    },
            ),
        ),
    }
}

impl View for Json {
    type V = JsonView;

    open spec fn view(&self) -> JsonView {
        json_view(*self)
    }
}

/// The JSON value that a text writes, or the words that say why it writes none.
pub uninterp spec fn reading_of(s: Seq<char>) -> Result<JsonView, Seq<char>>;

/// The JSON value that a text writes.
pub open spec fn json_of_text(s: Seq<char>) -> Option<JsonView> {
    match reading_of(s) {
        Ok(j) => Some(j),
        Err(_) => None,
    }
}

/// Why a text is not JSON, in the parser's words; nothing where it is.
pub open spec fn json_fault(s: Seq<char>) -> Option<Seq<char>> {
    match reading_of(s) {
        Ok(_) => None,
        Err(why) => Some(why),
    }
}

/// What a value of the outside parser holds.
pub uninterp spec fn contents(v: serde_json::Value) -> JsonView;

/// `serde_json::from_str::<Value>`: the value that a text writes, or, where it is not JSON, what the error
/// shows itself as. Both depend on the text alone.
#[verifier::external_body]
pub(crate) fn read_value(s: &str) -> (r: Result<Value, String>)
    ensures
        match r {
            Ok(v) => reading_of(s@) == Ok::<JsonView, Seq<char>>(contents(v)),
            Err(why) => reading_of(s@) == Err::<JsonView, Seq<char>>(why@),
        },
{
    match serde_json::from_str::<Value>(s) {
        Ok(v) => Ok(v),
        Err(e) => Err(e.to_string()),
    }
}

/// `serde_json::Value`, variant by variant: items and fields in the order in which the value holds
/// them, a number as `as_u64`, `as_i64` and `to_string` give it.
#[verifier::external_body]
pub(crate) fn of_value(v: Value) -> (r: Json)
    ensures
        r@ == contents(v),
{
    match v {
        Value::Null => Json::Null,
        Value::Bool(b) => Json::Bool(b),
        Value::Number(n) => Json::Number {
            unsigned: n.as_u64(),
            signed: n.as_i64(),
            text: n.to_string(),
        },
        Value::String(s) => Json::Text(s),
        Value::Array(a) => Json::List(a.into_iter().map(of_value).collect()),
        Value::Object(m) => Json::Record(m.into_iter().map(|(k, x)| (k, of_value(x))).collect()),
    }
}

/// Reads a text as JSON, or says why it is none.
pub fn read_json(s: &str) -> (r: Result<Json, String>)
    ensures
        match r {
            Ok(j) => json_of_text(s@) == Some(j@),
            Err(why) => json_of_text(s@) is None && json_fault(s@) == Some(why@),
        },
{
    match read_value(s) {
        Ok(v) => Ok(of_value(v)),
        Err(why) => Err(why),
    }
}

/// Reads a text as JSON.
pub fn parse_json(s: &str) -> (r: Option<Json>)
    ensures
        match r {
            Some(j) => json_of_text(s@) == Some(j@),
            None => json_of_text(s@) is None,
        },
{
    match read_json(s) {
        Ok(j) => Some(j),
        Err(_) => None,
    }
}

/// The value of the first field with this name.
pub open spec fn field_from(fields: Seq<(Seq<char>, JsonView)>, key: Seq<char>, i: int) -> Option<
    JsonView,
>
    decreases fields.len() - i,
{
    if i < 0 || i >= fields.len() {
        None
    } else if fields[i].0 == key {
        Some(fields[i].1)
    } else {
        field_from(fields, key, i + 1)
    }
}

impl JsonView {
    /// The value of a field; nothing where the value is no record or lacks the field.
    pub open spec fn field(self, key: Seq<char>) -> Option<JsonView> {
        match self {
            JsonView::Record(fields) => field_from(fields, key, 0),
            _ => None,
        }
    }

    /// The text of a field that holds a text.
    pub open spec fn text_field(self, key: Seq<char>) -> Option<Seq<char>> {
        match self.field(key) {
            Some(JsonView::Text(s)) => Some(s),
            _ => None,
        }
    }

    /// The truth value of a field that holds one.
    pub open spec fn bool_field(self, key: Seq<char>) -> Option<bool> {
        match self.field(key) {
            Some(JsonView::Bool(b)) => Some(b),
            _ => None,
        }
    }

    /// The number of a field that holds a number without a sign.
    pub open spec fn u64_field(self, key: Seq<char>) -> Option<u64> {
        match self.field(key) {
            Some(JsonView::Number { unsigned, .. }) => unsigned,
            _ => None,
        }
    }

    /// The number of a field that holds a whole number.
    pub open spec fn i64_field(self, key: Seq<char>) -> Option<i64> {
        match self.field(key) {
            Some(JsonView::Number { signed, .. }) => signed,
            _ => None,
        }
    }

    /// The decimal that the text of a field writes.
    pub open spec fn dec_field(self, key: Seq<char>) -> Option<Dec> {
        match self.text_field(key) {
            Some(s) => dec_of_text(s),
            None => None,
        }
    }

    /// The items of a value that is a list.
    pub open spec fn list(self) -> Option<Seq<JsonView>> {
        match self {
            JsonView::List(v) => Some(v),
            _ => None,
        }
    }

    /// The items of a field that holds a list.
    pub open spec fn list_field(self, key: Seq<char>) -> Option<Seq<JsonView>> {
        match self.field(key) {
            Some(j) => j.list(),
            None => None,
        }
    }

    /// The text of an item of a list, where the item is a text.
    pub open spec fn item_text(self, i: int) -> Option<Seq<char>> {
        match self {
            JsonView::List(v) => if 0 <= i < v.len() {
                match v[i] {
                    JsonView::Text(s) => Some(s),
                    _ => None,
                }
            } else {
                None
            },
            _ => None,
        }
    }

    /// The items of a list, none where the value is no list.
    pub open spec fn items(self) -> Seq<JsonView> {
        match self {
            JsonView::List(v) => v,
            _ => Seq::empty(),
        }
    }
}

/// A list of values as the values it holds.
pub open spec fn views(v: Seq<Json>) -> Seq<JsonView> {
    v.map_values(|j: Json| j@)
}

impl Json {
    /// The value of a field.
    pub fn field(&self, key: &str) -> (r: Option<&Json>)
        ensures
            match r {
                Some(j) => self@.field(key@) == Some(j@),
                None => self@.field(key@) is None,
            },
    {
        match self {
            Json::Record(fields) => {
                let mut i: usize = 0;
                let ghost all = self@->Record_0;
                while i < fields.len()
                    invariant
                        i <= fields.len(),
                        all.len() == fields.len(),
                        forall|j: int|
                            0 <= j < all.len() ==> #[trigger] all[j] == (
                                fields@[j].0@,
                                fields@[j].1@,
                            ),
                        self@.field(key@) == field_from(all, key@, i as int),
                    decreases fields.len() - i,
                {
                    assert(all[i as int].0 == fields@[i as int].0@);
                    if crate::text::same(fields[i].0.as_str(), key) {
                        return Some(&fields[i].1);
                    }
                    i = i + 1;
                }
                None
            },
            _ => None,
        }
    }

    /// The text of a field that holds a text.
    pub fn text_field(&self, key: &str) -> (r: Option<&str>)
        ensures
            match r {
                Some(s) => self@.text_field(key@) == Some(s@),
                None => self@.text_field(key@) is None,
            },
    {
        match self.field(key) {
            Some(Json::Text(s)) => Some(s.as_str()),
            _ => None,
        }
    }

    /// The truth value of a field that holds one.
    pub fn bool_field(&self, key: &str) -> (r: Option<bool>)
        ensures
            r == self@.bool_field(key@),
    {
        match self.field(key) {
            Some(Json::Bool(b)) => Some(*b),
            _ => None,
        }
    }

    /// The number of a field that holds a number without a sign.
    pub fn u64_field(&self, key: &str) -> (r: Option<u64>)
        ensures
            r == self@.u64_field(key@),
    {
        match self.field(key) {
            Some(Json::Number { unsigned, .. }) => *unsigned,
            _ => None,
        }
    }

    /// The number of a field that holds a whole number.
    pub fn i64_field(&self, key: &str) -> (r: Option<i64>)
        ensures
            r == self@.i64_field(key@),
    {
        match self.field(key) {
            Some(Json::Number { signed, .. }) => *signed,
            _ => None,
        }
    }

    /// The decimal that the text of a field writes.
    pub fn dec_field(&self, key: &str) -> (r: Option<Dec>)
        ensures
            r == self@.dec_field(key@),
    {
        match self.text_field(key) {
            Some(s) => parse_dec(s),
            None => None,
        }
    }

    /// The items of a value that is a list.
    pub fn list(&self) -> (r: Option<&Vec<Json>>)
        ensures
            match r {
                Some(v) => self@.list() == Some(views(v@)),
                None => self@.list() is None,
            },
    {
        match self {
            Json::List(v) => {
                assert(views(v@) =~= self@->List_0);
                Some(v)
            },
            _ => None,
        }
    }

    /// The items of a field that holds a list.
    pub fn list_field(&self, key: &str) -> (r: Option<&Vec<Json>>)
        ensures
            match r {
                Some(v) => self@.list_field(key@) == Some(views(v@)),
                None => self@.list_field(key@) is None,
            },
    {
        match self.field(key) {
            Some(j) => j.list(),
            None => None,
        }
    }

    /// The text of an item of a list, where the item is a text.
    pub fn item_text(&self, i: usize) -> (r: Option<&str>)
        ensures
            match r {
                Some(s) => self@.item_text(i as int) == Some(s@),
                None => self@.item_text(i as int) is None,
            },
    {
        match self {
            Json::List(v) => if i < v.len() {
                assert(self@->List_0[i as int] == v@[i as int]@);
                match &v[i] {
                    Json::Text(s) => Some(s.as_str()),
                    _ => None,
                }
            } else {
                None
            },
            _ => None,
        }
    }
}

/// The items of the list that a text writes; nothing where it writes no list.
pub open spec fn list_of_text(s: Seq<char>) -> Option<Seq<JsonView>> {
    match json_of_text(s) {
        Some(JsonView::List(v)) => Some(v),
        _ => None,
    }
}

/// Reads a text as a JSON list.
pub fn parse_list(s: &str) -> (r: Option<Vec<Json>>)
    ensures
        match r {
            Some(v) => list_of_text(s@) == Some(views(v@)),
            None => list_of_text(s@) is None,
        },
{
    match parse_json(s) {
        Some(Json::List(v)) => {
            assert(views(v@) =~= json_view(Json::List(v))->List_0);
            Some(v)
        },
        _ => None,
    }
}

/// The items of the list that a text writes; none where it writes no list.
pub open spec fn items_of_text(s: Seq<char>) -> Seq<JsonView> {
    match list_of_text(s) {
        Some(v) => v,
        None => Seq::empty(),
    }
}

/// Reads a text as a JSON list; none of its items where it writes no list.
pub fn parse_items(s: &str) -> (r: Vec<Json>)
    ensures
        views(r@) == items_of_text(s@),
{
    match parse_list(s) {
        Some(v) => v,
        None => Vec::new(),
    }
}

/// The value of a field is that of the first with its name; a record without one, and what is no record, has none.
pub proof fn first_field_counts(fields: Seq<(Seq<char>, JsonView)>, key: Seq<char>, i: int)
    requires
        0 <= i <= fields.len(),
    ensures
        field_from(fields, key, i) is None <==> forall|j: int|
            i <= j < fields.len() ==> (#[trigger] fields[j]).0 != key,
        forall|j: int|
            i <= j < fields.len() && (#[trigger] fields[j]).0 == key && (forall|k: int|
                i <= k < j ==> (#[trigger] fields[k]).0 != key) ==> field_from(fields, key, i) == Some(fields[j].1),
    decreases fields.len() - i,
{
    if i < fields.len() {
        first_field_counts(fields, key, i + 1);
        assert(fields[i] == fields[i]);
    }
}

/// A field is read as what it holds and as nothing else: a text as a text, a number as a number, a truth value as
/// one, a list as its items.
pub proof fn fields_have_their_kinds(j: JsonView, key: Seq<char>)
    ensures
        j.text_field(key) matches Some(s) ==> j.field(key) == Some(JsonView::Text(s)),
        j.field(key) matches Some(JsonView::Text(s)) ==> j.text_field(key) == Some(s) && j.dec_field(key)
            == dec_of_text(s),
        j.bool_field(key) matches Some(b) ==> j.field(key) == Some(JsonView::Bool(b)),
        j.field(key) matches Some(JsonView::Bool(b)) ==> j.bool_field(key) == Some(b),
        j.field(key) matches Some(JsonView::Number { unsigned, signed, .. }) ==> j.u64_field(key) == unsigned
            && j.i64_field(key) == signed,
        j.u64_field(key) is Some || j.i64_field(key) is Some ==> (j.field(key) matches Some(JsonView::Number { .. })),
        j.field(key) matches Some(JsonView::List(v)) ==> j.list_field(key) == Some(v),
        j.list_field(key) matches Some(v) ==> j.field(key) == Some(JsonView::List(v)),
        j.text_field(key) is None ==> j.dec_field(key) is None,
        !(j is Record) ==> j.field(key) is None,
{
}

/// The items of a text are those of the list that it writes, and none where it writes anything else.
pub proof fn items_are_of_list(s: Seq<char>)
    ensures
        json_of_text(s) matches Some(JsonView::List(v)) ==> items_of_text(s) == v && list_of_text(s) == Some(v),
        !(json_of_text(s) matches Some(JsonView::List(_))) ==> items_of_text(s).len() == 0 && list_of_text(s) is None,
{
}

} // verus!
