//! JSON documents as plain data, and their reading and writing by
//! `serde_json`.
//!
//! `Json` mirrors `serde_json::Value` one to one. The logic of this crate
//! reads and builds `Json`; text is turned into it, and it into text, by the
//! parser and the printer of `serde_json`, whose results are named here and
//! not described.
use crate::chars::str_same;
use vstd::prelude::*;

verus! {

/// The type `serde_json::Value`, of which nothing is seen here but through `value_model`.
#[verifier::external_type_specification]
#[verifier::external_body]
pub struct ExValue(serde_json::Value);

/// The type `serde_json::Number`, of which nothing is seen here but through `number_u64`.
#[verifier::external_type_specification]
#[verifier::external_body]
pub struct ExNumber(serde_json::Number);

/// The type `serde_json::Error`, which is only carried through.
#[verifier::external_type_specification]
#[verifier::external_body]
pub struct ExJsonError(serde_json::Error);

/// A JSON document. The entries of an object are kept in a list; where a key
/// occurs twice the later entry counts.
#[derive(Debug, PartialEq)]
pub enum Json {
    Null,
    Bool(bool),
    Number(serde_json::Number),
    Str(String),
    Array(Vec<Json>),
    Object(Vec<(String, Json)>),
}

/// The mathematical value of a `Json`.
pub enum JsonValue {
    Null,
    Bool(bool),
    Number(serde_json::Number),
    Str(Seq<char>),
    Array(Seq<JsonValue>),
    Object(Seq<(Seq<char>, JsonValue)>),
}

/// What `serde_json::from_str` gives for `text`: the value that it reads, or
/// the error that it fails with.
pub uninterp spec fn parsed_value(text: Seq<char>) -> Result<serde_json::Value, serde_json::Error>;

/// What a `serde_json::Value` holds; an object's entries stand in the order
/// in which its map yields them.
pub uninterp spec fn value_model(v: serde_json::Value) -> JsonValue;

/// The `serde_json::Value` built from a document, entry by entry.
pub uninterp spec fn value_built(j: JsonValue) -> serde_json::Value;

/// What `serde_json::to_string` gives for `v`: the text that it writes, or
/// the error that it fails with.
pub uninterp spec fn value_text(v: serde_json::Value) -> Result<Seq<char>, serde_json::Error>;

/// What `serde_json::to_string_pretty` gives for `v`: the text that it
/// writes, or the error that it fails with.
pub uninterp spec fn value_text_pretty(v: serde_json::Value) -> Result<
    Seq<char>,
    serde_json::Error,
>;

/// The text that a `serde_json::Error` displays as.
pub uninterp spec fn error_shown(e: serde_json::Error) -> Seq<char>;

/// The text that `v` displays as.
pub uninterp spec fn value_shown(v: serde_json::Value) -> Seq<char>;

/// The number as a `u64`, where it is a non-negative integer.
pub uninterp spec fn number_u64(n: serde_json::Number) -> Option<u64>;

/// The number that `serde_json` makes of a `u64`.
pub uninterp spec fn number_of_u64(u: u64) -> serde_json::Number;

/// What comes of reading `text` as JSON: the document, or what the parser
/// complains of.
pub open spec fn json_read(text: Seq<char>) -> Result<JsonValue, Seq<char>> {
    match parsed_value(text) {
        Ok(v) => Ok(value_model(v)),
        Err(e) => Err(error_shown(e)),
    }
}

/// The document that `text` parses to, if it is JSON.
pub open spec fn json_parse(text: Seq<char>) -> Option<JsonValue> {
    match json_read(text) {
        Ok(j) => Some(j),
        Err(_) => None,
    }
}

/// The view of what came of reading a text.
pub open spec fn read_view(r: Result<Json, JsonFault>) -> Result<JsonValue, Seq<char>> {
    match r {
        Ok(j) => Ok(j@),
        Err(f) => Err(f.message@),
    }
}

/// What comes of writing a document as compact text: the text, or what the
/// printer complains of.
pub open spec fn json_written(j: JsonValue) -> Result<Seq<char>, Seq<char>> {
    match value_text(value_built(j)) {
        Ok(t) => Ok(t),
        Err(e) => Err(error_shown(e)),
    }
}

/// What comes of writing a document as indented text: the text, or what the
/// printer complains of.
pub open spec fn json_written_pretty(j: JsonValue) -> Result<Seq<char>, Seq<char>> {
    match value_text_pretty(value_built(j)) {
        Ok(t) => Ok(t),
        Err(e) => Err(error_shown(e)),
    }
}

/// The compact text of a document; nothing where it cannot be written.
pub open spec fn json_text(j: JsonValue) -> Seq<char> {
    match json_written(j) {
        Ok(t) => t,
        Err(_) => Seq::empty(),
    }
}

/// The indented text of a document; nothing where it cannot be written.
pub open spec fn json_text_pretty(j: JsonValue) -> Seq<char> {
    match json_written_pretty(j) {
        Ok(t) => t,
        Err(_) => Seq::empty(),
    }
}

/// The view of what came of writing a document.
pub open spec fn written_view(r: Result<String, JsonFault>) -> Result<Seq<char>, Seq<char>> {
    match r {
        Ok(t) => Ok(t@),
        Err(f) => Err(f.message@),
    }
}

/// The text that a document displays as.
pub open spec fn json_shown(j: JsonValue) -> Seq<char> {
    value_shown(value_built(j))
}

/// The value of the last of the first `n` entries that has the key `key`.
pub open spec fn entry_below(entries: Seq<(Seq<char>, JsonValue)>, key: Seq<char>, n: int)
    -> Option<JsonValue>
    decreases n,
{
    if n <= 0 || n > entries.len() {
        None
    } else if entries[n - 1].0 == key {
        Some(entries[n - 1].1)
    } else {
        entry_below(entries, key, n - 1)
    }
}

/// The member `key` of an object; `None` for other documents and where the
/// object has no such member.
pub open spec fn member(j: JsonValue, key: Seq<char>) -> Option<JsonValue> {
    match j {
        JsonValue::Object(entries) => entry_below(entries, key, entries.len() as int),
        _ => None,
    }
}

/// The member `key` of the member `outer`.
pub open spec fn member2(j: JsonValue, outer: Seq<char>, key: Seq<char>) -> Option<JsonValue> {
    match member(j, outer) {
        Some(inner) => member(inner, key),
        None => None,
    }
}

/// The text of a string document.
pub open spec fn text_of(j: JsonValue) -> Option<Seq<char>> {
    match j {
        JsonValue::Str(s) => Some(s),
        _ => None,
    }
}

/// The text of the member `key`, where it is a string.
pub open spec fn member_text(j: JsonValue, key: Seq<char>) -> Option<Seq<char>> {
    match member(j, key) {
        Some(m) => text_of(m),
        None => None,
    }
}

/// The truth value of a boolean document.
pub open spec fn bool_of(j: JsonValue) -> Option<bool> {
    match j {
        JsonValue::Bool(b) => Some(b),
        _ => None,
    }
}

/// The value of a document that is a non-negative integer below 2^64.
pub open spec fn u64_of(j: JsonValue) -> Option<u64> {
    match j {
        JsonValue::Number(n) => number_u64(n),
        _ => None,
    }
}

/// The views of the entries of an object.
pub open spec fn entry_views(entries: Seq<(String, Json)>) -> Seq<(Seq<char>, JsonValue)> {
    Seq::new(entries.len(), |i: int| (entries[i].0@, entries[i].1@))
}

/// The views of the items of an array.
pub open spec fn item_views(items: Seq<Json>) -> Seq<JsonValue> {
    Seq::new(items.len(), |i: int| items[i]@)
}

impl Json {
    /// The value that the document stands for.
    pub open spec fn view(&self) -> JsonValue
        decreases self,
    {
        match self {
            Json::Null => JsonValue::Null,
            Json::Bool(b) => JsonValue::Bool(*b),
            Json::Number(n) => JsonValue::Number(*n),
            Json::Str(s) => JsonValue::Str(s@),
            Json::Array(items) => JsonValue::Array(
                Seq::new(
                    items@.len(),
                    |i: int|
                        if 0 <= i < items@.len() {
                            items@[i].view()
                        } else {
                            JsonValue::Null
                        },
                ),
            ),
            Json::Object(entries) => JsonValue::Object(
                Seq::new(
                    entries@.len(),
                    |i: int|
                        if 0 <= i < entries@.len() {
                            (entries@[i].0@, entries@[i].1.view())
                        } else {
                            (Seq::empty(), JsonValue::Null)
                        },
                ),
            ),
        }
    }
}

/// `serde_json::from_str` at the type `Value`. It is a function of the text
/// alone: the same text gives the same value or fails with the same error.
#[verifier::external_body]
fn value_from_str(text: &str) -> (r: Result<serde_json::Value, serde_json::Error>)
    ensures
        match r {
            Ok(v) => parsed_value(text@) == Ok::<serde_json::Value, serde_json::Error>(v),
            Err(e) => parsed_value(text@) == Err::<serde_json::Value, serde_json::Error>(e),
        },
{
    serde_json::from_str::<serde_json::Value>(text)
}

/// Copies a `serde_json::Value` into a `Json`, variant by variant; the
/// entries of an object come in the order in which its map yields them.
#[verifier::external_body]
fn value_to_json(v: &serde_json::Value) -> (j: Json)
    ensures
        j@ == value_model(*v),
{
    match v {
        serde_json::Value::Null => Json::Null,
        serde_json::Value::Bool(b) => Json::Bool(*b),
        serde_json::Value::Number(n) => Json::Number(n.clone()),
        serde_json::Value::String(s) => Json::Str(s.clone()),
        serde_json::Value::Array(a) => Json::Array(a.iter().map(value_to_json).collect()),
        serde_json::Value::Object(o) => Json::Object(
            o.iter().map(|(k, x)| (k.clone(), value_to_json(x))).collect(),
        ),
    }
}

/// Copies a `Json` into a `serde_json::Value`, variant by variant; the
/// entries of an object are collected into its map in their order.
#[verifier::external_body]
fn json_to_value(j: &Json) -> (v: serde_json::Value)
    ensures
        v == value_built(j@),
{
    match j {
        Json::Null => serde_json::Value::Null,
        Json::Bool(b) => serde_json::Value::Bool(*b),
        Json::Number(n) => serde_json::Value::Number(n.clone()),
        Json::Str(s) => serde_json::Value::String(s.clone()),
        Json::Array(a) => serde_json::Value::Array(a.iter().map(json_to_value).collect()),
        Json::Object(o) => serde_json::Value::Object(
            o.iter().map(|(k, x)| (k.clone(), json_to_value(x))).collect(),
        ),
    }
}

/// `serde_json::to_string` on a `Value`. It is a function of the value
/// alone: the same value gives the same text or fails with the same error.
#[verifier::external_body]
fn value_to_string(v: &serde_json::Value) -> (r: Result<String, serde_json::Error>)
    ensures
        match r {
            Ok(s) => value_text(*v) == Ok::<Seq<char>, serde_json::Error>(s@),
            Err(e) => value_text(*v) == Err::<Seq<char>, serde_json::Error>(e),
        },
{
    serde_json::to_string(v)
}

/// `serde_json::to_string_pretty` on a `Value`. It is a function of the
/// value alone, as `serde_json::to_string` is.
#[verifier::external_body]
fn value_to_string_pretty(v: &serde_json::Value) -> (r: Result<String, serde_json::Error>)
    ensures
        match r {
            Ok(s) => value_text_pretty(*v) == Ok::<Seq<char>, serde_json::Error>(s@),
            Err(e) => value_text_pretty(*v) == Err::<Seq<char>, serde_json::Error>(e),
        },
{
    serde_json::to_string_pretty(v)
}

/// The `Display` form of a `Value`, which is its compact JSON text.
#[verifier::external_body]
fn value_display(v: &serde_json::Value) -> (s: String)
    ensures
        s@ == value_shown(*v),
{
    v.to_string()
}

/// The `Display` form of a `serde_json::Error`, which is a function of the
/// error alone.
#[verifier::external_body]
fn error_display(e: &serde_json::Error) -> (s: String)
    ensures
        s@ == error_shown(*e),
{
    e.to_string()
}

/// `Number::as_u64`: the value of a number that is stored as a non-negative
/// integer.
#[verifier::external_body]
fn number_as_u64(n: &serde_json::Number) -> (r: Option<u64>)
    ensures
        r == number_u64(*n),
{
    n.as_u64()
}

/// `Number::from` at `u64`, which stores the integer as it is.
#[verifier::external_body]
fn number_from_u64(u: u64) -> (n: serde_json::Number)
    ensures
        n == number_of_u64(u),
        number_u64(n) == Some(u),
{
    serde_json::Number::from(u)
}

/// `Number::clone` gives the same number.
pub assume_specification[ <serde_json::Number as Clone>::clone ](n: &serde_json::Number) -> (r:
    serde_json::Number)
    ensures
        r == *n,
;

/// Why a text could not be read or a document not be written, in words.
#[derive(Debug, Clone, PartialEq)]
pub struct JsonFault {
    pub message: String,
}

/// Reads a JSON document from `text` as `serde_json` reads it; where it
/// does not read one, its complaint.
pub fn parse_json(text: &str) -> (r: Result<Json, JsonFault>)
    ensures
        read_view(r) == json_read(text@),
        match r {
            Ok(j) => json_parse(text@) == Some(j@),
            Err(_) => json_parse(text@).is_none(),
        },
{
    match value_from_str(text) {
        Ok(v) => Ok(value_to_json(&v)),
        Err(e) => Err(JsonFault { message: error_display(&e) }),
    }
}

impl Json {
    /// A string document.
    pub fn text(s: &str) -> (j: Json)
        ensures
            j@ == JsonValue::Str(s@),
    {
        Json::Str(s.to_owned())
    }

    /// A non-negative integer document.
    pub fn unsigned(u: u64) -> (j: Json)
        ensures
            j@ == JsonValue::Number(number_of_u64(u)),
            u64_of(j@) == Some(u),
    {
        Json::Number(number_from_u64(u))
    }

    /// An object without members.
    pub fn empty_object() -> (j: Json)
        ensures
            j@ == JsonValue::Object(Seq::empty()),
    {
        let j = Json::Object(Vec::new());
        assert(j@->Object_0 =~= Seq::empty());
        j
    }

    /// An object with one member.
    pub fn object1(key: &str, value: Json) -> (j: Json)
        ensures
            j@ == JsonValue::Object(seq![(key@, value@)]),
    {
        let mut entries: Vec<(String, Json)> = Vec::new();
        entries.push((key.to_owned(), value));
        let j = Json::Object(entries);
        assert(j@->Object_0 =~= seq![(key@, value@)]);
        j
    }

    /// The object with one more member at its end; other documents stay as
    /// they are.
    pub fn with(self, key: &str, value: Json) -> (j: Json)
        ensures
            j@ == match self@ {
                JsonValue::Object(entries) => JsonValue::Object(entries.push((key@, value@))),
                other => other,
            },
    {
        match self {
            Json::Object(entries) => {
                let ghost before = Json::Object(entries)@->Object_0;
                let mut entries = entries;
                entries.push((key.to_owned(), value));
                let j = Json::Object(entries);
                assert(j@->Object_0 =~= before.push((key@, value@)));
                j
            },
            other => other,
        }
    }

    /// The member `key` of an object.
    pub fn get(&self, key: &str) -> (r: Option<&Json>)
        ensures
            match r {
                Some(m) => member(self@, key@) == Some(m@),
                None => member(self@, key@).is_none(),
            },
    {
        match self {
            Json::Object(entries) => {
                let ghost views = self@->Object_0;
                let mut n: usize = entries.len();
                while n > 0
                    invariant
                        n <= entries.len(),
                        self@ == JsonValue::Object(views),
                        views.len() == entries.len(),
                        forall|i: int|
                            0 <= i < entries.len() ==> views[i] == (
                                #[trigger] entries@[i].0@,
                                entries@[i].1@,
                            ),
                        entry_below(views, key@, views.len() as int) == entry_below(
                            views,
                            key@,
                            n as int,
                        ),
                    decreases n,
                {
                    assert(views[n - 1] == (entries@[n - 1].0@, entries@[n - 1].1@));
                    if str_same(entries[n - 1].0.as_str(), key) {
                        assert(entry_below(views, key@, n as int) == Some(entries@[n - 1].1@));
                        return Some(&entries[n - 1].1);
                    }
                    n -= 1;
                }
                None
            },
            _ => None,
        }
    }

    /// The member `key` of the member `outer`.
    pub fn get2(&self, outer: &str, key: &str) -> (r: Option<&Json>)
        ensures
            match r {
                Some(m) => member2(self@, outer@, key@) == Some(m@),
                None => member2(self@, outer@, key@).is_none(),
            },
    {
        match self.get(outer) {
            Some(inner) => inner.get(key),
            None => None,
        }
    }

    /// The text of a string document.
    pub fn as_str(&self) -> (r: Option<&str>)
        ensures
            match r {
                Some(s) => text_of(self@) == Some(s@),
                None => text_of(self@).is_none(),
            },
    {
        match self {
            Json::Str(s) => Some(s.as_str()),
            _ => None,
        }
    }

    /// The truth value of a boolean document.
    pub fn as_bool(&self) -> (r: Option<bool>)
        ensures
            r == bool_of(self@),
    {
        match self {
            Json::Bool(b) => Some(*b),
            _ => None,
        }
    }

    /// The value of a document that is a non-negative integer below 2^64.
    pub fn as_u64(&self) -> (r: Option<u64>)
        ensures
            r == u64_of(self@),
    {
        match self {
            Json::Number(n) => number_as_u64(n),
            _ => None,
        }
    }

    /// The text of the member `key`, where it is a string.
    pub fn get_str(&self, key: &str) -> (r: Option<&str>)
        ensures
            match r {
                Some(s) => member_text(self@, key@) == Some(s@),
                None => member_text(self@, key@).is_none(),
            },
    {
        match self.get(key) {
            Some(m) => m.as_str(),
            None => None,
        }
    }

    /// A copy of the document.
    pub fn duplicate(&self) -> (r: Json)
        ensures
            r@ == self@,
        decreases self,
    {
        match self {
            Json::Null => Json::Null,
            Json::Bool(b) => Json::Bool(*b),
            Json::Number(n) => Json::Number(n.clone()),
            Json::Str(s) => Json::Str(s.clone()),
            Json::Array(items) => {
                let mut out: Vec<Json> = Vec::new();
                let mut i: usize = 0;
                while i < items.len()
                    invariant
                        i <= items.len(),
                        out.len() == i,
                        self == Json::Array(*items),
                        forall|t: int| 0 <= t < i ==> out@[t]@ == items@[t]@,
                    decreases items.len() - i,
                {
                    proof {
                        assert(self->Array_0 == *items);
                        assert(decreases_to!(self => self->Array_0));
                        assert(decreases_to!(items => items@[i as int]));
                    }
                    out.push(items[i].duplicate());
                    i += 1;
                }
                let r = Json::Array(out);
                assert(r@->Array_0 =~= self@->Array_0);
                r
            },
            Json::Object(entries) => {
                let mut out: Vec<(String, Json)> = Vec::new();
                let mut i: usize = 0;
                while i < entries.len()
                    invariant
                        i <= entries.len(),
                        out.len() == i,
                        self == Json::Object(*entries),
                        forall|t: int|
                            0 <= t < i ==> out@[t].0@ == entries@[t].0@ && out@[t].1@
                                == entries@[t].1@,
                    decreases entries.len() - i,
                {
                    proof {
                        assert(self->Object_0 == *entries);
                        assert(decreases_to!(self => self->Object_0));
                        assert(decreases_to!(entries => entries@[i as int]));
                        assert(decreases_to!(entries@[i as int] => entries@[i as int].1));
                    }
                    out.push((entries[i].0.clone(), entries[i].1.duplicate()));
                    i += 1;
                }
                let r = Json::Object(out);
                assert(r@->Object_0 =~= self@->Object_0);
                r
            },
        }
    }

    /// The compact text of the document as `serde_json` writes it; where it
    /// does not write it, its complaint.
    pub fn to_text(&self) -> (r: Result<String, JsonFault>)
        ensures
            written_view(r) == json_written(self@),
            r matches Ok(s) ==> s@ == json_text(self@),
    {
        let v = json_to_value(self);
        match value_to_string(&v) {
            Ok(s) => Ok(s),
            Err(e) => Err(JsonFault { message: error_display(&e) }),
        }
    }

    /// The indented text of the document as `serde_json` writes it; where
    /// it does not write it, its complaint.
    pub fn to_pretty_text(&self) -> (r: Result<String, JsonFault>)
        ensures
            written_view(r) == json_written_pretty(self@),
            r matches Ok(s) ==> s@ == json_text_pretty(self@),
    {
        let v = json_to_value(self);
        match value_to_string_pretty(&v) {
            Ok(s) => Ok(s),
            Err(e) => Err(JsonFault { message: error_display(&e) }),
        }
    }

    /// The text that the document displays as.
    pub fn shown(&self) -> (s: String)
        ensures
            s@ == json_shown(self@),
    {
        let v = json_to_value(self);
        value_display(&v)
    }
}

} // verus!
