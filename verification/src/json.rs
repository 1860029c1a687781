//! JSON values: what the parser hands over, and lookups in it.

use vstd::prelude::*;

verus! {

/// A number, in each of the readings that the value fits.
#[derive(Clone, Copy, Debug, PartialEq, Eq, Structural)]
pub struct Number {
    pub unsigned: Option<u64>,
    pub signed: Option<i64>,
    /// The bits of the nearest double.
    pub double: Option<u64>,
    /// The number taken as seconds, in nanoseconds; none where it is
    /// negative or too large.
    pub span: Option<u128>,
}

/// A JSON value.
#[derive(Debug, PartialEq, Eq)]
pub enum Json {
    Null,
    Bool(bool),
    Number(Number),
    Text(String),
    List(Vec<Json>),
    Object(Vec<(String, Json)>),
}

/// What a JSON value holds.
pub enum JsonView {
    Null,
    Bool(bool),
    Number(Number),
    Text(Seq<char>),
    List(Seq<JsonView>),
    Object(Seq<(Seq<char>, JsonView)>),
}

/// What a JSON value holds.
pub open spec fn json_view(j: Json) -> JsonView
    decreases j,
{
    match j {
        Json::Null => JsonView::Null,
        Json::Bool(b) => JsonView::Bool(b),
        Json::Number(n) => JsonView::Number(n),
        Json::Text(s) => JsonView::Text(s@),
        Json::List(v) => JsonView::List(
            Seq::new(
                v@.len(),
                |i: int|
                    if 0 <= i < v@.len() {
                        json_view(v@[i])
                    } else {
                        JsonView::Null
                    },
            ),
        ),
        Json::Object(v) => JsonView::Object(
            Seq::new(
                v@.len(),
                |i: int|
                    if 0 <= i < v@.len() {
                        (v@[i].0@, json_view(v@[i].1))
                    } else {
                        (Seq::empty(), JsonView::Null)
                    },
            ),
        ),
    }
}

impl View for Json {
    type V = JsonView;

    open spec fn view(&self) -> JsonView {
        json_view(*self)
    }
}

/// The name under which the text's parse is known: the value, or the
/// parser's complaint.
pub uninterp spec fn json_parse(text: Seq<char>) -> Result<JsonView, Seq<char>>;

/// A parse result, its value and its complaint by view.
pub open spec fn parsed(r: Result<Json, String>) -> Result<JsonView, Seq<char>> {
    match r {
        Ok(v) => Ok(v@),
        Err(e) => Err(e@),
    }
}

/// `serde_json::Value`, unopened: only `from_value` looks inside.
#[verifier::external_type_specification]
#[verifier::external_body]
pub struct ExValue(serde_json::Value);

/// The number as a span of seconds, by `Duration::try_from_secs_f64`.
/// Nothing is claimed of it here: `parse` names the outcome.
#[verifier::external_body]
fn span_of(value: &serde_json::Value) -> (r: Option<u128>) {
    let span = std::time::Duration::try_from_secs_f64(value.as_f64()?);
    span.ok().map(|d| d.as_nanos())
}

/// The readings of a number by `Value::as_u64`, `as_i64` and `as_f64`.
/// Nothing is claimed of them here: `parse` names the outcome.
#[verifier::external_body]
fn number_of(value: &serde_json::Value, span: Option<u128>) -> (r: Number) {
    Number {
        unsigned: value.as_u64(),
        signed: value.as_i64(),
        double: value.as_f64().map(|x| x.to_bits()),
        span,
    }
}

/// Turns a `serde_json::Value` into a `Json`, variant by variant. Nothing
/// is claimed of it here: `parse` names the outcome.
#[verifier::external_body]
fn from_value(value: serde_json::Value) -> (r: Json) {
    match value {
        serde_json::Value::Null => Json::Null,
        serde_json::Value::Bool(b) => Json::Bool(b),
        serde_json::Value::Number(_) => Json::Number(number_of(&value, span_of(&value))),
        serde_json::Value::String(s) => Json::Text(s),
        serde_json::Value::Array(v) => Json::List(v.into_iter().map(from_value).collect()),
        serde_json::Value::Object(m) => Json::Object(
            m.into_iter().map(|(k, v)| (k, from_value(v))).collect(),
        ),
    }
}

/// `serde_json::from_str` into a `Value`: the same text always gives the
/// same value, or the same complaint.
#[verifier::external_body]
pub(crate) fn parse(text: &str) -> (r: Result<Json, String>)
    ensures
        parsed(r) == json_parse(text@),
{
    match serde_json::from_str::<serde_json::Value>(text) {
        Ok(value) => Ok(from_value(value)),
        Err(e) => Err(e.to_string()),
    }
}

/// The name under which a text's JSON form is known.
pub uninterp spec fn json_text(s: Seq<char>) -> Seq<char>;

/// Whether a text holds no line feed.
pub open spec fn one_line(s: Seq<char>) -> bool {
    forall|i: int| 0 <= i < s.len() ==> #[trigger] s[i] != '\n'
}

/// `serde_json::to_string` of a `str`, which never fails: the same text is
/// always written alike, and control characters are escaped, so that no
/// line feed is left.
#[verifier::external_body]
pub(crate) fn quote_json(s: &str) -> (r: String)
    ensures
        r@ == json_text(s@),
        one_line(r@),
{
    serde_json::to_string(s).expect("a string")
}

impl JsonView {
    /// The value under `key`, at or after place `from` of an object.
    pub open spec fn entry_from(
        entries: Seq<(Seq<char>, JsonView)>,
        key: Seq<char>,
        from: int,
    ) -> Option<JsonView>
        decreases entries.len() - from,
    {
        if from >= entries.len() {
            None
        } else if entries[from].0 == key {
            Some(entries[from].1)
        } else {
            JsonView::entry_from(entries, key, from + 1)
        }
    }

    /// The value under `key` of an object; nothing in anything else.
    pub open spec fn field(self, key: Seq<char>) -> Option<JsonView> {
        match self {
            JsonView::Object(entries) => JsonView::entry_from(entries, key, 0),
            _ => None,
        }
    }

    pub open spec fn text(self) -> Option<Seq<char>> {
        match self {
            JsonView::Text(s) => Some(s),
            _ => None,
        }
    }

    pub open spec fn unsigned(self) -> Option<u64> {
        match self {
            JsonView::Number(n) => n.unsigned,
            _ => None,
        }
    }

    pub open spec fn double(self) -> Option<u64> {
        match self {
            JsonView::Number(n) => n.double,
            _ => None,
        }
    }

    /// A number of seconds, in nanoseconds.
    pub open spec fn span(self) -> Option<u128> {
        match self {
            JsonView::Number(n) => n.span,
            _ => None,
        }
    }

    pub open spec fn boolean(self) -> Option<bool> {
        match self {
            JsonView::Bool(b) => Some(b),
            _ => None,
        }
    }

    /// The items of a list; nothing in anything else.
    pub open spec fn list(self) -> Option<Seq<JsonView>> {
        match self {
            JsonView::List(v) => Some(v),
            _ => None,
        }
    }

    /// The text under `key`.
    pub open spec fn text_field(self, key: Seq<char>) -> Option<Seq<char>> {
        match self.field(key) {
            Some(v) => v.text(),
            None => None,
        }
    }

    /// The unsigned number under `key`.
    pub open spec fn unsigned_field(self, key: Seq<char>) -> Option<u64> {
        match self.field(key) {
            Some(v) => v.unsigned(),
            None => None,
        }
    }

    /// The list under `key`.
    pub open spec fn list_field(self, key: Seq<char>) -> Option<Seq<JsonView>> {
        match self.field(key) {
            Some(v) => v.list(),
            None => None,
        }
    }
}

/// The views of a list of values.
pub open spec fn json_views(v: Seq<Json>) -> Seq<JsonView> {
    v.map_values(|j: Json| j@)
}

impl Json {
    /// The value under `key` of an object.
    pub fn field(&self, key: &str) -> (r: Option<&Json>)
        ensures
            r is Some <==> self@.field(key@) is Some,
            r matches Some(v) ==> self@.field(key@) == Some(v@),
    {
        match self {
            Json::Object(entries) => {
                let ghost all = self@->Object_0;
                let mut i: usize = 0;
                while i < entries.len()
                    invariant
                        i <= entries@.len(),
                        all.len() == entries@.len(),
                        forall|k: int|
                            0 <= k < all.len() ==> #[trigger] all[k] == (
                                entries@[k].0@,
                                entries@[k].1@,
                            ),
                        self@.field(key@) == JsonView::entry_from(all, key@, i as int),
                    decreases entries@.len() - i,
                {
                    assert(all[i as int] == (entries@[i as int].0@, entries@[i as int].1@));
                    if entries[i].0.as_str().eq(key) {
                        return Some(&entries[i].1);
                    }
                    i += 1;
                }
                None
            },
            _ => None,
        }
    }

    pub fn as_str(&self) -> (r: Option<&str>)
        ensures
            r is Some <==> self@.text() is Some,
            r matches Some(s) ==> self@.text() == Some(s@),
    {
        match self {
            Json::Text(s) => Some(s.as_str()),
            _ => None,
        }
    }

    pub fn as_u64(&self) -> (r: Option<u64>)
        ensures
            r == self@.unsigned(),
    {
        match self {
            Json::Number(n) => n.unsigned,
            _ => None,
        }
    }

    /// The bits of a number's double.
    pub fn as_double(&self) -> (r: Option<u64>)
        ensures
            r == self@.double(),
    {
        match self {
            Json::Number(n) => n.double,
            _ => None,
        }
    }

    /// A number of seconds, in nanoseconds.
    pub fn as_span(&self) -> (r: Option<u128>)
        ensures
            r == self@.span(),
    {
        match self {
            Json::Number(n) => n.span,
            _ => None,
        }
    }

    pub fn as_bool(&self) -> (r: Option<bool>)
        ensures
            r == self@.boolean(),
    {
        match self {
            Json::Bool(b) => Some(*b),
            _ => None,
        }
    }

    pub fn as_array(&self) -> (r: Option<&Vec<Json>>)
        ensures
            r is Some <==> self@.list() is Some,
            r matches Some(v) ==> self@.list() == Some(json_views(v@)),
    {
        match self {
            Json::List(v) => {
                assert(self@->List_0 =~= json_views(v@));
                Some(v)
            },
            _ => None,
        }
    }

    /// The text under `key`.
    pub fn text_field(&self, key: &str) -> (r: Option<&str>)
        ensures
            r is Some <==> self@.text_field(key@) is Some,
            r matches Some(s) ==> self@.text_field(key@) == Some(s@),
    {
        match self.field(key) {
            Some(v) => v.as_str(),
            None => None,
        }
    }

    /// The text under `key`, copied.
    pub fn owned_text_field(&self, key: &str) -> (r: Option<String>)
        ensures
            crate::text::opt_text(r) == self@.text_field(key@),
    {
        match self.text_field(key) {
            Some(s) => Some(s.to_owned()),
            None => None,
        }
    }

    /// The unsigned number under `key`.
    pub fn unsigned_field(&self, key: &str) -> (r: Option<u64>)
        ensures
            r == self@.unsigned_field(key@),
    {
        match self.field(key) {
            Some(v) => v.as_u64(),
            None => None,
        }
    }

    /// The list under `key`.
    pub fn list_field(&self, key: &str) -> (r: Option<&Vec<Json>>)
        ensures
            r is Some <==> self@.list_field(key@) is Some,
            r matches Some(v) ==> self@.list_field(key@) == Some(json_views(v@)),
    {
        match self.field(key) {
            Some(v) => v.as_array(),
            None => None,
        }
    }
}

/// What an object has under a key is what its first entry of that name
/// holds; nothing but an object has anything under a key.
pub proof fn lemma_field_is_the_first_entry(
    entries: Seq<(Seq<char>, JsonView)>,
    key: Seq<char>,
    value: JsonView,
)
    ensures
        match JsonView::Object(entries).field(key) {
            Some(found) => exists|i: int|
                0 <= i < entries.len() && #[trigger] entries[i] == (key, found) && forall|k: int|
                    0 <= k < i ==> (#[trigger] entries[k]).0 != key,
            None => forall|i: int| 0 <= i < entries.len() ==> (#[trigger] entries[i]).0 != key,
        },
        !(value is Object) ==> value.field(key) is None,
{
    lemma_entry_from(entries, key, 0);
}

proof fn lemma_entry_from(entries: Seq<(Seq<char>, JsonView)>, key: Seq<char>, from: int)
    requires
        0 <= from,
    ensures
        match JsonView::entry_from(entries, key, from) {
            Some(found) => exists|i: int|
                from <= i < entries.len() && #[trigger] entries[i] == (key, found) && forall|k: int|
                    from <= k < i ==> (#[trigger] entries[k]).0 != key,
            None => forall|i: int| from <= i < entries.len() ==> (#[trigger] entries[i]).0 != key,
        },
    decreases entries.len() - from,
{
    if from < entries.len() {
        if entries[from].0 == key {
            assert(entries[from] == (key, entries[from].1));
        } else {
            lemma_entry_from(entries, key, from + 1);
            if let Some(found) = JsonView::entry_from(entries, key, from + 1) {
                let i = choose|i: int|
                    from + 1 <= i < entries.len() && #[trigger] entries[i] == (key, found)
                        && forall|k: int| from + 1 <= k < i ==> (#[trigger] entries[k]).0 != key;
                assert(entries[i] == (key, found));
            }
        }
    }
}

/// A field is read as what it is and as nothing else: a text as a text, a
/// number by its readings, a list as a list.
pub proof fn lemma_fields_are_read_as_they_are(v: JsonView, key: Seq<char>)
    ensures
        v.text_field(key) == (match v.field(key) {
            Some(JsonView::Text(s)) => Some(s),
            _ => None,
        }),
        v.unsigned_field(key) == (match v.field(key) {
            Some(JsonView::Number(n)) => n.unsigned,
            _ => None,
        }),
        v.list_field(key) == (match v.field(key) {
            Some(JsonView::List(items)) => Some(items),
            _ => None,
        }),
        v.boolean() == (match v {
            JsonView::Bool(b) => Some(b),
            _ => None,
        }),
        v.double() == (match v {
            JsonView::Number(n) => n.double,
            _ => None,
        }),
        v.span() == (match v {
            JsonView::Number(n) => n.span,
            _ => None,
        }),
{
}

} // verus!
