//! TOML, as manifests and configuration hold it.

use toml::Value;
use vstd::prelude::*;

use crate::measure::{Real, RealV};
use crate::table;
use crate::text::{self, Text};

verus! {

/// A TOML value. The keys of a table are in order.
pub enum Toml {
    Str(String),
    Int(i64),
    Part(Real),
    Bool(bool),
    Date(String),
    List(Vec<Toml>),
    Table(Vec<(String, Toml)>),
}

/// What a [`Toml`] holds.
pub enum TomlV {
    Str(Text),
    Int(i64),
    Part(RealV),
    Bool(bool),
    Date(Text),
    List(Seq<TomlV>),
    Table(Seq<(Text, TomlV)>),
}

impl Toml {
    pub open spec fn shown(self) -> TomlV
        decreases self,
    {
        match self {
            Toml::Str(s) => TomlV::Str(s@),
            Toml::Int(n) => TomlV::Int(n),
            Toml::Part(r) => TomlV::Part(r.deep_view()),
            Toml::Bool(b) => TomlV::Bool(b),
            Toml::Date(s) => TomlV::Date(s@),
            Toml::List(items) => TomlV::List(
                Seq::new(
                    items@.len(),
                    |i: int|
                        if 0 <= i < items@.len() {
                            items@[i].shown()
                        } else {
                            TomlV::Bool(false)
                        },
                ),
            ),
            Toml::Table(rows) => TomlV::Table(
                Seq::new(
                    rows@.len(),
                    |i: int|
                        if 0 <= i < rows@.len() {
                            (rows@[i].0@, rows@[i].1.shown())
                        } else {
                            (seq![], TomlV::Bool(false))
                        },
                ),
            ),
        }
    }
}

impl DeepView for Toml {
    type V = TomlV;

    open spec fn deep_view(&self) -> TomlV {
        self.shown()
    }
}

proof fn lemma_items_shown(items: Vec<Toml>)
    ensures
        Toml::List(items).deep_view() == TomlV::List(items.deep_view()),
{
    assert(Toml::List(items).shown()->List_0 =~= items.deep_view());
}

proof fn lemma_rows_shown(rows: Vec<(String, Toml)>)
    ensures
        Toml::Table(rows).deep_view() == TomlV::Table(rows.deep_view()),
{
    assert(Toml::Table(rows).shown()->Table_0 =~= rows.deep_view());
}

/// What stands under a key.
pub open spec fn under(value: Option<TomlV>, key: Text) -> Option<TomlV> {
    match value {
        Some(TomlV::Table(rows)) => table::lookup(rows, key),
        _ => None,
    }
}

pub open spec fn string(value: Option<TomlV>) -> Option<Text> {
    match value {
        Some(TomlV::Str(s)) => Some(s),
        _ => None,
    }
}

pub open spec fn truth(value: Option<TomlV>) -> Option<bool> {
    match value {
        Some(TomlV::Bool(b)) => Some(b),
        _ => None,
    }
}

/// The items of a list, and none of anything else.
pub open spec fn items(value: Option<TomlV>) -> Seq<TomlV> {
    match value {
        Some(TomlV::List(items)) => items,
        _ => seq![],
    }
}

/// The rows of a table, and none of anything else.
pub open spec fn rows(value: Option<TomlV>) -> Seq<(Text, TomlV)> {
    match value {
        Some(TomlV::Table(rows)) => rows,
        _ => seq![],
    }
}

/// The strings among the first `n` items.
pub open spec fn strings(items: Seq<TomlV>, n: nat) -> Seq<Text>
    decreases n,
{
    if n == 0 {
        seq![]
    } else {
        match items[n - 1] {
            TomlV::Str(s) => strings(items, (n - 1) as nat).push(s),
            _ => strings(items, (n - 1) as nat),
        }
    }
}

impl Toml {
    pub fn get(&self, key: &str) -> (value: Option<&Toml>)
        ensures
            value.deep_view() == under(Some(self.deep_view()), key@),
    {
        let rows = match self {
            Toml::Table(rows) => rows,
            _ => return None,
        };
        proof {
            lemma_rows_shown(*rows);
        }
        let ghost all = rows.deep_view();
        let mut i: usize = 0;
        assert(all.skip(0) =~= all);
        while i < rows.len()
            invariant
                i <= rows.len(),
                all == rows.deep_view(),
                self.deep_view() == TomlV::Table(all),
                table::lookup(all, key@) == table::lookup(all.skip(i as int), key@),
            decreases rows.len() - i,
        {
            if text::same(rows[i].0.as_str(), key) {
                return Some(&rows[i].1);
            }
            assert(all.skip(i as int).skip(1) =~= all.skip(i + 1));
            i += 1;
        }
        None
    }

    pub fn as_list(&self) -> (list: Option<&Vec<Toml>>)
        ensures
            match list {
                Some(v) => self.deep_view() == TomlV::List(v.deep_view()),
                None => !(self.deep_view() is List),
            },
    {
        match self {
            Toml::List(items) => {
                proof {
                    lemma_items_shown(*items);
                }
                Some(items)
            },
            _ => None,
        }
    }

    pub fn as_table(&self) -> (rows: Option<&Vec<(String, Toml)>>)
        ensures
            match rows {
                Some(v) => self.deep_view() == TomlV::Table(v.deep_view()),
                None => !(self.deep_view() is Table),
            },
    {
        match self {
            Toml::Table(rows) => {
                proof {
                    lemma_rows_shown(*rows);
                }
                Some(rows)
            },
            _ => None,
        }
    }
}

/// What stands under a key, where there is anything to look in.
pub fn get_in<'a>(value: Option<&'a Toml>, key: &str) -> (out: Option<&'a Toml>)
    ensures
        out.deep_view() == under(value.deep_view(), key@),
{
    match value {
        Some(v) => v.get(key),
        None => None,
    }
}

pub fn str_in(value: Option<&Toml>) -> (s: Option<String>)
    ensures
        s.deep_view() == string(value.deep_view()),
{
    match value {
        Some(Toml::Str(s)) => Some(s.clone()),
        _ => None,
    }
}

pub fn bool_in(value: Option<&Toml>) -> (b: Option<bool>)
    ensures
        b == truth(value.deep_view()),
{
    match value {
        Some(Toml::Bool(b)) => Some(*b),
        _ => None,
    }
}

/// The strings of a list.
pub fn strings_in(value: Option<&Toml>) -> (out: Vec<String>)
    ensures
        out.deep_view() == strings(items(value.deep_view()), items(value.deep_view()).len()),
{
    let mut out: Vec<String> = Vec::new();
    assert(out.deep_view() =~= seq![]);
    if let Some(v) = value {
        if let Some(list) = v.as_list() {
            let mut i: usize = 0;
            while i < list.len()
                invariant
                    i <= list.len(),
                    out.deep_view() == strings(list.deep_view(), i as nat),
                decreases list.len() - i,
            {
                if let Toml::Str(s) = &list[i] {
                    text::push(&mut out, s.clone());
                }
                i += 1;
            }
        }
    }
    out
}

/// `toml`'s own value, which is what its text is read into.
#[verifier::external_type_specification]
#[verifier::external_body]
pub struct ExToml(Value);

/// What a `toml::Value` holds.
pub uninterp spec fn toml_held(value: Value) -> TomlV;

/// What `toml::from_str` reads out of a text, or the words it refuses it with.
pub uninterp spec fn toml_read(source: Text) -> Result<TomlV, Text>;

/// Calls `toml::from_str` for a `toml::Value`. Which texts it reads, what it
/// reads and the words of its error depend on the text alone.
#[verifier::external_body]
fn read_document(source: &str) -> (value: Result<Value, String>)
    ensures
        match value {
            Ok(v) => toml_read(source@) == Ok::<TomlV, Text>(toml_held(v)),
            Err(e) => toml_read(source@) == Err::<TomlV, Text>(e@),
        },
{
    toml::from_str(source).map_err(|e| e.to_string())
}

/// Takes a `toml::Value` apart, one variant for one: a float by its bits and
/// its decimal text, a date by its text.
#[verifier::external_body]
fn from_toml(value: Value) -> (t: Toml)
    ensures
        t.deep_view() == toml_held(value),
{
    match value {
        Value::String(s) => Toml::Str(s),
        Value::Integer(n) => Toml::Int(n),
        Value::Float(x) => Toml::Part(Real { bits: x.to_bits(), text: x.to_string() }),
        Value::Boolean(b) => Toml::Bool(b),
        Value::Datetime(d) => Toml::Date(d.to_string()),
        Value::Array(items) => Toml::List(items.into_iter().map(from_toml).collect()),
        Value::Table(map) => {
            Toml::Table(map.into_iter().map(|(k, v)| (k, from_toml(v))).collect())
        },
    }
}

impl Toml {
    /// Reads a document, or says what is wrong with it.
    pub fn parse(source: &str) -> (t: Result<Toml, String>)
        ensures
            match t {
                Ok(v) => toml_read(source@) == Ok::<TomlV, Text>(v.deep_view()),
                Err(e) => toml_read(source@) == Err::<TomlV, Text>(e@),
            },
    {
        match read_document(source) {
            Ok(value) => Ok(from_toml(value)),
            Err(e) => Err(e),
        }
    }

    /// Reads a document, when it is one.
    pub fn read(source: &str) -> (t: Option<Toml>)
        ensures
            t.deep_view() == document(source@),
    {
        match Toml::parse(source) {
            Ok(t) => Some(t),
            Err(_) => None,
        }
    }
}

/// The document a text is, when it is one.
pub open spec fn document(source: Text) -> Option<TomlV> {
    match toml_read(source) {
        Ok(t) => Some(t),
        Err(_) => None,
    }
}

}
