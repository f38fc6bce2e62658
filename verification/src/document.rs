//! TOML documents as plain values, read and written by the `toml` crate.
use vstd::prelude::*;
use crate::text;
use crate::text::{chars_of, same_str, three};

verus! {

/// A TOML value as it is read.
#[derive(Debug)]
pub enum Toml {
    Text(String),
    /// A number, as an error names it.
    Number(String),
    Boolean(bool),
    /// A date or a time, as it is written.
    Datetime(String),
    Array(Vec<Toml>),
    Table(Vec<(String, Toml)>),
}

/// What a [`Toml`] holds.
pub enum TomlView {
    Text(Seq<char>),
    Number(Seq<char>),
    Boolean(bool),
    Datetime(Seq<char>),
    Array(Seq<TomlView>),
    Table(Seq<(Seq<char>, TomlView)>),
}

impl View for Toml {
    type V = TomlView;

    open spec fn view(&self) -> TomlView
        decreases self,
    {
        match self {
            Toml::Text(s) => TomlView::Text(s@),
            Toml::Number(s) => TomlView::Number(s@),
            Toml::Boolean(b) => TomlView::Boolean(*b),
            Toml::Datetime(s) => TomlView::Datetime(s@),
            Toml::Array(items) => TomlView::Array(
                Seq::new(
                    items@.len(),
                    |i: int|
                        if 0 <= i < items@.len() {
                            items@[i].view()
                        } else {
                            TomlView::Boolean(false)
                        },
                ),
            ),
            Toml::Table(entries) => TomlView::Table(
                Seq::new(
                    entries@.len(),
                    |i: int|
                        if 0 <= i < entries@.len() {
                            (entries@[i].0@, entries@[i].1.view())
                        } else {
                            (Seq::empty(), TomlView::Boolean(false))
                        },
                ),
            ),
        }
    }
}

/// What the items of an array hold.
pub open spec fn items_view(v: Seq<Toml>) -> Seq<TomlView> {
    Seq::new(v.len(), |i: int| v[i]@)
}

/// What the entries of a table hold.
pub open spec fn entries_view(v: Seq<(String, Toml)>) -> Seq<(Seq<char>, TomlView)> {
    Seq::new(v.len(), |i: int| (v[i].0@, v[i].1@))
}

impl Toml {
    /// The items of an array.
    pub fn as_array(&self) -> (r: Option<&Vec<Toml>>)
        ensures
            match r {
                Some(v) => self@ == TomlView::Array(items_view(v@)),
                None => !(self@ is Array),
            },
    {
        match self {
            Toml::Array(items) => {
                assert(self@->Array_0 =~= items_view(items@)) by {
                    reveal_with_fuel(<Toml as View>::view, 2);
                }
                Some(items)
            },
            _ => None,
        }
    }

    /// The entries of a table.
    pub fn as_table(&self) -> (r: Option<&Vec<(String, Toml)>>)
        ensures
            match r {
                Some(v) => self@ == TomlView::Table(entries_view(v@)),
                None => !(self@ is Table),
            },
    {
        match self {
            Toml::Table(entries) => {
                assert(self@->Table_0 =~= entries_view(entries@)) by {
                    reveal_with_fuel(<Toml as View>::view, 2);
                }
                Some(entries)
            },
            _ => None,
        }
    }
}

/// The value of `key` among the entries from `i` on.
pub open spec fn entry_from(
    entries: Seq<(Seq<char>, TomlView)>,
    key: Seq<char>,
    i: int,
) -> Option<TomlView>
    decreases entries.len() - i,
{
    if i < 0 || i >= entries.len() {
        None
    } else if entries[i].0 == key {
        Some(entries[i].1)
    } else {
        entry_from(entries, key, i + 1)
    }
}

/// The value of `key` in a table.
pub open spec fn entry(entries: Seq<(Seq<char>, TomlView)>, key: Seq<char>) -> Option<TomlView> {
    entry_from(entries, key, 0)
}

/// The value of `key` in a table.
pub fn lookup<'a>(entries: &'a Vec<(String, Toml)>, key: &str) -> (r: Option<&'a Toml>)
    ensures
        match r {
            Some(v) => entry(entries_view(entries@), key@) == Some(v@),
            None => entry(entries_view(entries@), key@) is None,
        },
{
    let ghost all = entries_view(entries@);
    for i in 0..entries.len()
        invariant
            all == entries_view(entries@),
            entry(all, key@) == entry_from(all, key@, i as int),
    {
        assert(all[i as int] == (entries@[i as int].0@, entries@[i as int].1@));
        if same_str(entries[i].0.as_str(), key) {
            return Some(&entries[i].1);
        }
    }
    None
}

// ---------------------------------------------------------------------------------------------
// Reading

/// `toml::Value`.
#[verifier::external_type_specification]
#[verifier::external_body]
pub struct ExTomlValue(toml::Value);

/// `toml::de::Error`.
#[verifier::external_type_specification]
#[verifier::external_body]
pub struct ExTomlReadError(toml::de::Error);

/// `toml::ser::Error`.
#[verifier::external_type_specification]
#[verifier::external_body]
pub struct ExTomlWriteError(toml::ser::Error);

/// What a `toml::Value` holds.
pub uninterp spec fn value_tree(v: toml::Value) -> TomlView;

/// What a `toml::de::Error` is displayed as.
pub uninterp spec fn read_error_text(e: toml::de::Error) -> Seq<char>;

/// The document that a text is as TOML, or the message that says why it is none.
pub uninterp spec fn toml_document(raw: Seq<char>) -> Result<TomlView, Seq<char>>;

/// `toml::Value`'s `FromStr`: whether the text is TOML, and which table it is, or what the error
/// says, depends on the text alone.
#[verifier::external_body]
fn parse_value(raw: &str) -> (r: Result<toml::Value, toml::de::Error>)
    ensures
        match r {
            Ok(v) => toml_document(raw@) == Ok::<TomlView, Seq<char>>(value_tree(v)),
            Err(e) => toml_document(raw@) == Err::<TomlView, Seq<char>>(read_error_text(e)),
        },
{
    raw.parse::<toml::Value>()
}

/// A `toml::Value` as a [`Toml`], one variant for one variant; dates and times by their
/// `to_string`, numbers by that of `serde::de::Unexpected`.
#[verifier::external_body]
fn tree_of(value: toml::Value) -> (r: Toml)
    ensures
        r@ == value_tree(value),
{
    match value {
        toml::Value::String(s) => Toml::Text(s),
        toml::Value::Integer(n) => Toml::Number(serde::de::Unexpected::Signed(n).to_string()),
        toml::Value::Float(n) => Toml::Number(serde::de::Unexpected::Float(n).to_string()),
        toml::Value::Boolean(b) => Toml::Boolean(b),
        toml::Value::Datetime(d) => Toml::Datetime(d.to_string()),
        toml::Value::Array(v) => Toml::Array(v.into_iter().map(tree_of).collect()),
        toml::Value::Table(m) => Toml::Table(
            m.into_iter().map(|(k, v)| (k, tree_of(v))).collect(),
        ),
    }
}

/// The display form of a `toml::de::Error`.
#[verifier::external_body]
fn error_text(e: &toml::de::Error) -> (r: String)
    ensures
        r@ == read_error_text(*e),
{
    e.to_string()
}

/// Reads a TOML document; the error is what the parser says.
pub fn parse_toml(raw: &str) -> (r: Result<Toml, String>)
    ensures
        match r {
            Ok(v) => toml_document(raw@) == Ok::<TomlView, Seq<char>>(v@),
            Err(e) => toml_document(raw@) == Err::<TomlView, Seq<char>>(e@),
        },
{
    match parse_value(raw) {
        Ok(v) => Ok(tree_of(v)),
        Err(e) => Err(error_text(&e)),
    }
}

// ---------------------------------------------------------------------------------------------
// Faults

/// How `serde::de::Unexpected` names a string.
pub uninterp spec fn string_named(s: Seq<char>) -> Seq<char>;

/// Whether a text is of printable ASCII characters other than the double quote and the backslash.
pub open spec fn plain_text(s: Seq<char>) -> bool {
    forall|i: int| 0 <= i < s.len() ==> ' ' <= #[trigger] s[i] <= '~' && s[i] != '"' && s[i] != '\\'
}

/// The display form of `serde::de::Unexpected::Str`, of the string alone: the word `string` and the
/// string in double quotes, as `Debug` writes it. Of a string with characters that `Debug` escapes,
/// no more is said than the name.
#[verifier::external_body]
fn name_string(s: &str) -> (r: String)
    ensures
        r@ == string_named(s@),
        plain_text(s@) ==> r@ == "string \""@ + s@ + "\""@,
{
    serde::de::Unexpected::Str(s).to_string()
}

/// How an error names a value that it did not expect. A date or a time is named like a string.
pub open spec fn named(v: TomlView) -> Seq<char> {
    match v {
        TomlView::Text(s) => string_named(s),
        TomlView::Datetime(s) => string_named(s),
        TomlView::Number(s) => s,
        TomlView::Boolean(b) => if b {
            "boolean `true`"@
        } else {
            "boolean `false`"@
        },
        TomlView::Array(_) => "sequence"@,
        TomlView::Table(_) => "map"@,
    }
}

/// What is said of a value of another type than expected.
pub open spec fn type_fault(v: TomlView, expected: Seq<char>) -> Seq<char> {
    "invalid type: "@ + named(v) + ", expected "@ + expected
}

/// What is said of a value of another type than expected.
pub fn type_error(v: &Toml, expected: &str) -> (r: String)
    ensures
        r@ == type_fault(v@, expected@),
{
    let name = match v {
        Toml::Text(s) => name_string(s.as_str()),
        Toml::Datetime(s) => name_string(s.as_str()),
        Toml::Number(s) => s.clone(),
        Toml::Boolean(b) => if *b {
            "boolean `true`".to_owned()
        } else {
            "boolean `false`".to_owned()
        },
        Toml::Array(_) => "sequence".to_owned(),
        Toml::Table(_) => "map".to_owned(),
    };
    let mut out = three("invalid type: ", name.as_str(), ", expected ");
    out.append(expected);
    out
}

/// A fault with the key that it lies under, each on a line.
pub open spec fn fault_under(fault: Seq<char>, key: Seq<char>) -> Seq<char> {
    fault + "\nin `"@ + key + "`\n"@
}

/// A fault with the key that it lies under, each on a line.
pub fn error_under(fault: &str, key: &str) -> (r: String)
    ensures
        r@ == fault_under(fault@, key@),
{
    let mut out = three(fault, "\nin `", key);
    out.append("`\n");
    out
}

// ---------------------------------------------------------------------------------------------
// Writing

/// A TOML value to write.
#[derive(Debug)]
pub enum Written {
    Text(String),
    Boolean(bool),
    List(Vec<String>),
    Table(Vec<(String, Written)>),
}

/// A list of texts as a TOML array.
pub open spec fn text_array(v: Seq<Seq<char>>) -> TomlView {
    TomlView::Array(Seq::new(v.len(), |i: int| TomlView::Text(v[i])))
}

impl View for Written {
    type V = TomlView;

    open spec fn view(&self) -> TomlView
        decreases self,
    {
        match self {
            Written::Text(s) => TomlView::Text(s@),
            Written::Boolean(b) => TomlView::Boolean(*b),
            Written::List(v) => text_array(text::strings(v@)),
            Written::Table(entries) => TomlView::Table(
                Seq::new(
                    entries@.len(),
                    |i: int|
                        if 0 <= i < entries@.len() {
                            (entries@[i].0@, entries@[i].1.view())
                        } else {
                            (Seq::empty(), TomlView::Boolean(false))
                        },
                ),
            ),
        }
    }
}

/// What the entries of a table to write hold.
pub open spec fn written_view(v: Seq<(String, Written)>) -> Seq<(Seq<char>, TomlView)> {
    Seq::new(v.len(), |i: int| (v[i].0@, v[i].1@))
}

/// A table to write holds what its entries hold.
pub proof fn lemma_table_view(t: Written)
    requires
        t is Table,
    ensures
        t@ == TomlView::Table(written_view(t->Table_0@)),
{
    reveal_with_fuel(<Written as View>::view, 2);
    assert(t@->Table_0 =~= written_view(t->Table_0@));
}

/// A key that needs no quotes.
pub open spec fn bare_key(k: Seq<char>) -> bool {
    k.len() > 0 && forall|i: int|
        0 <= i < k.len() ==> text::is_alphanumeric(#[trigger] k[i]) || k[i] == '-' || k[i] == '_'
}

/// Whether no key is there twice, and all are bare.
pub open spec fn sound_keys(entries: Seq<(Seq<char>, TomlView)>) -> bool {
    &&& forall|i: int| 0 <= i < entries.len() ==> bare_key((#[trigger] entries[i]).0)
    &&& forall|i: int, j: int|
        0 <= i < j < entries.len() ==> (#[trigger] entries[i]).0 != (#[trigger] entries[j]).0
}

/// Whether a character stands `n` times in a row in a text.
pub open spec fn has_run(s: Seq<char>, c: char, n: int) -> bool {
    exists|i: int| #[trigger] is_run(s, c, i, n)
}

/// Whether a character stands at `i` and after it, `n` times in all.
pub open spec fn is_run(s: Seq<char>, c: char, i: int, n: int) -> bool {
    0 <= i && i + n <= s.len() && forall|j: int| i <= j < i + n ==> #[trigger] s[j] == c
}

/// How many quotes of one kind may stand in a row in a text to write.
pub const MAX_QUOTES: usize = 255;

/// A text that can be written: no more quotes of one kind in a row than can be counted.
pub open spec fn writable_text(s: Seq<char>) -> bool {
    !has_run(s, '"', MAX_QUOTES + 1) && !has_run(s, '\'', MAX_QUOTES + 1)
}

/// A value without a table in it that can be written.
pub open spec fn writable_leaf(v: TomlView) -> bool {
    match v {
        TomlView::Text(s) => writable_text(s),
        TomlView::Boolean(_) => true,
        TomlView::Array(items) => forall|i: int|
            0 <= i < items.len() ==> (#[trigger] items[i]) is Text && writable_text(
                items[i]->Text_0,
            ),
        _ => false,
    }
}

/// A table of values without tables in them.
pub open spec fn writable_table(v: TomlView) -> bool {
    match v {
        TomlView::Table(entries) => sound_keys(entries) && entries.len() > 0 && forall|i: int|
            0 <= i < entries.len() ==> writable_leaf((#[trigger] entries[i]).1),
        _ => false,
    }
}

/// A document that can be written: plain values first, then tables of them.
pub open spec fn writable(v: TomlView) -> bool {
    match v {
        TomlView::Table(entries) => {
            &&& sound_keys(entries)
            &&& entries.len() > 0
            &&& forall|i: int|
                0 <= i < entries.len() ==> writable_leaf((#[trigger] entries[i]).1)
                    || writable_table(entries[i].1)
            &&& forall|i: int, j: int|
                0 <= i < j < entries.len() && (#[trigger] entries[i]).1 is Table ==> (
                #[trigger] entries[j]).1 is Table
        },
        _ => false,
    }
}

/// The text that a table is written as, laid out for reading.
pub uninterp spec fn toml_text(tree: TomlView) -> Seq<char>;

/// A `toml::Value` of a [`Written`], one variant for one variant; a table is a `toml::Table` with
/// the entries in their order.
#[verifier::external_body]
fn value_of(w: Written) -> (r: toml::Value)
    requires
        writable(w@) || writable_leaf(w@),
    ensures
        value_tree(r) == w@,
{
    match w {
        Written::Text(s) => toml::Value::String(s),
        Written::Boolean(b) => toml::Value::Boolean(b),
        Written::List(v) => toml::Value::Array(v.into_iter().map(toml::Value::String).collect()),
        Written::Table(entries) => toml::Value::Table(
            entries.into_iter().map(|(k, v)| (k, value_of(v))).collect(),
        ),
    }
}

/// `toml::to_string_pretty`: it writes every document that can be written, the text depends on
/// the document alone and is not blank, and reading it gives the document back.
#[verifier::external_body]
fn to_pretty(value: &toml::Value) -> (r: Result<String, toml::ser::Error>)
    requires
        writable(value_tree(*value)),
    ensures
        match r {
            Ok(s) => s@ == toml_text(value_tree(*value)) && text::trim(s@).len() > 0
                && toml_document(s@) == Ok::<TomlView, Seq<char>>(value_tree(*value)),
            Err(_) => false,
        },
{
    toml::to_string_pretty(value)
}

/// Writes a TOML document, laid out for reading. What is written reads back.
pub fn write_toml(w: Written) -> (r: String)
    requires
        writable(w@),
    ensures
        r@ == toml_text(w@),
        text::trim(r@).len() > 0,
        toml_document(r@) == Ok::<TomlView, Seq<char>>(w@),
{
    let v = value_of(w);
    match to_pretty(&v) {
        Ok(s) => s,
        Err(_) => String::new(),
    }
}

/// Whether a character stands `n` times in a row in a text.
fn runs(s: &[char], c: char, n: usize) -> (r: bool)
    requires
        n > 0,
    ensures
        r == has_run(s@, c, n as int),
{
    let mut run: usize = 0;
    for i in 0..s.len()
        invariant
            n > 0,
            run < n,
            run <= i,
            is_run(s@, c, i - run, run as int),
            i > run ==> s@[i - run - 1] != c,
            forall|k: int| k + n <= i ==> !#[trigger] is_run(s@, c, k, n as int),
    {
        let ghost before = run as int;
        if s[i] == c {
            run += 1;
            assert(is_run(s@, c, i + 1 - run, run as int));
            if run >= n {
                return true;
            }
            assert forall|k: int| k + n <= i + 1 implies !#[trigger] is_run(s@, c, k, n as int) by {
                if k + n == i + 1 && is_run(s@, c, k, n as int) {
                    assert(s@[i - before - 1] == c);
                }
            }
        } else {
            run = 0;
            assert forall|k: int| k + n <= i + 1 implies !#[trigger] is_run(s@, c, k, n as int) by {
                if k + n == i + 1 && is_run(s@, c, k, n as int) {
                    assert(s@[i as int] == c);
                }
            }
        }
    }
    false
}

/// Whether a text can be written.
pub fn can_write(s: &str) -> (r: bool)
    ensures
        r == writable_text(s@),
{
    let chars = chars_of(s);
    !runs(&chars, '"', MAX_QUOTES + 1) && !runs(&chars, '\'', MAX_QUOTES + 1)
}

/// A message about a value of another kind names the value and ends with the kind that was expected.
pub proof fn kinds_are_named(b: bool, s: Seq<char>, expected: Seq<char>, v: TomlView)
    ensures
        text::has_suffix(type_fault(v, expected), expected),
        text::holds(
            type_fault(TomlView::Boolean(b), expected),
            if b {
                "`true`"@
            } else {
                "`false`"@
            },
        ),
        text::holds(type_fault(TomlView::Number(s), expected), s),
        v is Array ==> text::holds(type_fault(v, expected), "sequence"@),
        v is Table ==> text::holds(type_fault(v, expected), "map"@),
{
    let t = type_fault(v, expected);
    text::prefixes_and_rests(expected, "invalid type: "@ + named(v) + ", expected "@, t);
    text::lemma_holds("invalid type: "@, named(v), ", expected "@ + expected);
    assert("invalid type: "@ + named(v) + (", expected "@ + expected) =~= t);
    let n = type_fault(TomlView::Number(s), expected);
    text::lemma_holds("invalid type: "@, s, ", expected "@ + expected);
    assert("invalid type: "@ + s + (", expected "@ + expected) =~= n);
    let word = if b {
        "`true`"@
    } else {
        "`false`"@
    };
    reveal_strlit("boolean `true`");
    reveal_strlit("boolean `false`");
    reveal_strlit("`true`");
    reveal_strlit("`false`");
    reveal_strlit("boolean ");
    assert(named(TomlView::Boolean(b)) =~= "boolean "@ + word);
    let w = type_fault(TomlView::Boolean(b), expected);
    text::lemma_holds("invalid type: "@ + "boolean "@, word, ", expected "@ + expected);
    assert("invalid type: "@ + "boolean "@ + word + (", expected "@ + expected) =~= w);
}

/// A table has under a name what stands first under it, and nothing where nothing does.
pub proof fn the_first_entry_of_a_name_counts(
    entries: Seq<(Seq<char>, TomlView)>,
    key: Seq<char>,
    i: int,
)
    ensures
        0 <= i < entries.len() && entries[i].0 == key && (forall|j: int|
            0 <= j < i ==> (#[trigger] entries[j]).0 != key) ==> entry(entries, key) == Some(
            entries[i].1,
        ),
        (forall|j: int| 0 <= j < entries.len() ==> (#[trigger] entries[j]).0 != key) ==> entry(
            entries,
            key,
        ) is None,
{
    lemma_entry_found(entries, key, 0, i);
}

proof fn lemma_entry_found(
    entries: Seq<(Seq<char>, TomlView)>,
    key: Seq<char>,
    from: int,
    i: int,
)
    requires
        0 <= from,
    ensures
        from <= i < entries.len() && entries[i].0 == key && (forall|j: int|
            from <= j < i ==> (#[trigger] entries[j]).0 != key) ==> entry_from(entries, key, from)
            == Some(entries[i].1),
        (forall|j: int| from <= j < entries.len() ==> (#[trigger] entries[j]).0 != key)
            ==> entry_from(entries, key, from) is None,
    decreases entries.len() - from,
{
    if from < entries.len() {
        lemma_entry_found(entries, key, from + 1, i);
        if entries[from].0 == key && from < i {
            assert(!(forall|j: int| from <= j < i ==> (#[trigger] entries[j]).0 != key));
        }
    }
}

} // verus!
