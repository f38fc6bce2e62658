//! JSON documents as plain values.
use vstd::prelude::*;
use crate::text;
use crate::text::same_str;

verus! {

/// A JSON value. A number keeps the text that it is written as and, where it is a whole
/// number of 64 bits without a sign, its value. The entries of an object are in the order of
/// the parser; each key occurs once.
#[derive(Debug)]
pub enum Json {
    Null,
    Bool(bool),
    Number { text: String, unsigned: Option<u64> },
    Text(String),
    Array(Vec<Json>),
    Object(Vec<(String, Json)>),
}

/// What a [`Json`] holds.
pub enum JsonView {
    Null,
    Bool(bool),
    Number { text: Seq<char>, unsigned: Option<u64> },
    Text(Seq<char>),
    Array(Seq<JsonView>),
    Object(Seq<(Seq<char>, JsonView)>),
}

impl View for Json {
    type V = JsonView;

    open spec fn view(&self) -> JsonView
        decreases self,
    {
        match self {
            Json::Null => JsonView::Null,
            Json::Bool(b) => JsonView::Bool(*b),
            Json::Number { text, unsigned } => JsonView::Number {
                text: text@,
                unsigned: *unsigned,
            },
            Json::Text(s) => JsonView::Text(s@),
            Json::Array(items) => JsonView::Array(
                Seq::new(
                    items@.len(),
                    |i: int|
                        if 0 <= i < items@.len() {
                            items@[i].view()
                        } else {
                            JsonView::Null
                        },
                ),
            ),
            Json::Object(entries) => JsonView::Object(
                Seq::new(
                    entries@.len(),
                    |i: int|
                        if 0 <= i < entries@.len() {
                            (entries@[i].0@, entries@[i].1.view())
                        } else {
                            (Seq::empty(), JsonView::Null)
                        },
                ),
            ),
        }
    }
}

/// What the items of an array hold.
pub open spec fn items_view(v: Seq<Json>) -> Seq<JsonView> {
    Seq::new(v.len(), |i: int| v[i]@)
}

/// What the entries of an object hold.
pub open spec fn entries_view(v: Seq<(String, Json)>) -> Seq<(Seq<char>, JsonView)> {
    Seq::new(v.len(), |i: int| (v[i].0@, v[i].1@))
}

impl Json {
    /// The items of an array.
    pub fn as_array(&self) -> (r: Option<&Vec<Json>>)
        ensures
            match r {
                Some(v) => self@ == JsonView::Array(items_view(v@)),
                None => !(self@ is Array),
            },
    {
        match self {
            Json::Array(items) => {
                assert(self@->Array_0 =~= items_view(items@)) by {
                    reveal_with_fuel(<Json as View>::view, 2);
                }
                Some(items)
            },
            _ => None,
        }
    }

    /// The entries of an object.
    pub fn as_object(&self) -> (r: Option<&Vec<(String, Json)>>)
        ensures
            match r {
                Some(v) => self@ == JsonView::Object(entries_view(v@)),
                None => !(self@ is Object),
            },
    {
        match self {
            Json::Object(entries) => {
                assert(self@->Object_0 =~= entries_view(entries@)) by {
                    reveal_with_fuel(<Json as View>::view, 2);
                }
                Some(entries)
            },
            _ => None,
        }
    }
}

/// The value of `key` among the entries from `i` on.
pub open spec fn entry_from(
    entries: Seq<(Seq<char>, JsonView)>,
    key: Seq<char>,
    i: int,
) -> Option<JsonView>
    decreases entries.len() - i,
{
    if i < 0 || i >= entries.len() {
        None
    } else if entries[i].0 == key {
        Some(entries[i].1)
    } else {
        entry_from(entries, key, i + 1)
    }
}

/// The value of `key` in an object.
pub open spec fn entry(entries: Seq<(Seq<char>, JsonView)>, key: Seq<char>) -> Option<JsonView> {
    entry_from(entries, key, 0)
}

/// The value of `key` in an object.
pub fn lookup<'a>(entries: &'a Vec<(String, Json)>, key: &str) -> (r: Option<&'a Json>)
    ensures
        match r {
            Some(v) => entry(entries_view(entries@), key@) == Some(v@),
            None => entry(entries_view(entries@), key@) is None,
        },
{
    let ghost all = entries_view(entries@);
    for i in 0..entries.len()
        invariant
            all == entries_view(entries@),
            entry(all, key@) == entry_from(all, key@, i as int),
    {
        assert(all[i as int] == (entries@[i as int].0@, entries@[i as int].1@));
        if same_str(entries[i].0.as_str(), key) {
            return Some(&entries[i].1);
        }
    }
    None
}

/// `serde_json::Value`.
#[verifier::external_type_specification]
#[verifier::external_body]
pub struct ExJsonValue(serde_json::Value);

/// `serde_json::Error`.
#[verifier::external_type_specification]
#[verifier::external_body]
pub struct ExJsonError(serde_json::Error);

/// What a `serde_json::Value` holds.
pub uninterp spec fn value_tree(v: serde_json::Value) -> JsonView;

/// What `serde_json::Error` is displayed as.
pub uninterp spec fn json_error_text(e: serde_json::Error) -> Seq<char>;

/// The document that a text is as JSON, or the message that says why it is none.
pub uninterp spec fn json_document(raw: Seq<char>) -> Result<JsonView, Seq<char>>;

/// `serde_json::from_str` into a `Value`: whether the text is JSON, and which value it is, or
/// what the error says, depends on the text alone.
#[verifier::external_body]
fn parse_value(raw: &str) -> (r: Result<serde_json::Value, serde_json::Error>)
    ensures
        match r {
            Ok(v) => json_document(raw@) == Ok::<JsonView, Seq<char>>(value_tree(v)),
            Err(e) => json_document(raw@) == Err::<JsonView, Seq<char>>(json_error_text(e)),
        },
{
    serde_json::from_str(raw)
}

/// A `serde_json::Value` as a [`Json`], one variant for one variant; a number by its
/// `to_string` and its `as_u64`.
#[verifier::external_body]
fn json_of(value: serde_json::Value) -> (r: Json)
    ensures
        r@ == value_tree(value),
{
    match value {
        serde_json::Value::Null => Json::Null,
        serde_json::Value::Bool(b) => Json::Bool(b),
        serde_json::Value::Number(n) => Json::Number { text: n.to_string(), unsigned: n.as_u64() },
        serde_json::Value::String(s) => Json::Text(s),
        serde_json::Value::Array(v) => Json::Array(v.into_iter().map(json_of).collect()),
        serde_json::Value::Object(m) => Json::Object(
            m.into_iter().map(|(k, v)| (k, json_of(v))).collect(),
        ),
    }
}

/// The display form of a `serde_json::Error`.
#[verifier::external_body]
fn error_text(e: &serde_json::Error) -> (r: String)
    ensures
        r@ == json_error_text(*e),
{
    e.to_string()
}

/// Reads a JSON document; the error is what the parser says.
pub fn parse_json(raw: &str) -> (r: Result<Json, String>)
    ensures
        match r {
            Ok(v) => json_document(raw@) == Ok::<JsonView, Seq<char>>(v@),
            Err(e) => json_document(raw@) == Err::<JsonView, Seq<char>>(e@),
        },
{
    match parse_value(raw) {
        Ok(v) => Ok(json_of(v)),
        Err(e) => Err(error_text(&e)),
    }
}

/// An object has under a name what stands first under it, and nothing where nothing does.
pub proof fn the_first_entry_of_a_name_counts(
    entries: Seq<(Seq<char>, JsonView)>,
    key: Seq<char>,
    i: int,
)
    ensures
        0 <= i < entries.len() && entries[i].0 == key && (forall|j: int|
            0 <= j < i ==> (#[trigger] entries[j]).0 != key) ==> entry(entries, key) == Some(
            entries[i].1,
        ),
        (forall|j: int| 0 <= j < entries.len() ==> (#[trigger] entries[j]).0 != key) ==> entry(
            entries,
            key,
        ) is None,
{
    lemma_entry_found(entries, key, 0, i);
}

proof fn lemma_entry_found(
    entries: Seq<(Seq<char>, JsonView)>,
    key: Seq<char>,
    from: int,
    i: int,
)
    requires
        0 <= from,
    ensures
        from <= i < entries.len() && entries[i].0 == key && (forall|j: int|
            from <= j < i ==> (#[trigger] entries[j]).0 != key) ==> entry_from(entries, key, from)
            == Some(entries[i].1),
        (forall|j: int| from <= j < entries.len() ==> (#[trigger] entries[j]).0 != key)
            ==> entry_from(entries, key, from) is None,
    decreases entries.len() - from,
{
    if from < entries.len() {
        lemma_entry_found(entries, key, from + 1, i);
        if entries[from].0 == key && from < i {
            assert(!(forall|j: int| from <= j < i ==> (#[trigger] entries[j]).0 != key));
        }
    }
}

} // verus!
