//! JSON, as the reports and the fact streams hold it.
//!
//! The text is `serde_json`'s business, in both directions. What stands here is
//! the tree between the two, and the questions that are asked of it.

use serde_json::Value;
use vstd::prelude::*;

use crate::measure::{Real, RealV};
use crate::said;
use crate::table;
use crate::text::{self, Text};

verus! {

/// A JSON value. Numbers are kept apart the way they are written: not negative,
/// negative, and with a fraction or an exponent.
#[derive(Debug)]
pub enum Json {
    Null,
    Bool(bool),
    Whole(u64),
    Minus(i64),
    Part(Real),
    Str(String),
    List(Vec<Json>),
    Object(Vec<(String, Json)>),
}

/// What a [`Json`] holds.
pub enum JsonV {
    Null,
    Bool(bool),
    Whole(u64),
    Minus(i64),
    Part(RealV),
    Str(Text),
    List(Seq<JsonV>),
    Object(Seq<(Text, JsonV)>),
}

impl Json {
    pub open spec fn shown(self) -> JsonV
        decreases self,
    {
        match self {
            Json::Null => JsonV::Null,
            Json::Bool(b) => JsonV::Bool(b),
            Json::Whole(n) => JsonV::Whole(n),
            Json::Minus(n) => JsonV::Minus(n),
            Json::Part(r) => JsonV::Part(r.deep_view()),
            Json::Str(s) => JsonV::Str(s@),
            Json::List(items) => JsonV::List(
                Seq::new(
                    items@.len(),
                    |i: int|
                        if 0 <= i < items@.len() {
                            items@[i].shown()
                        } else {
                            JsonV::Null
                        },
                ),
            ),
            Json::Object(fields) => JsonV::Object(
                Seq::new(
                    fields@.len(),
                    |i: int|
                        if 0 <= i < fields@.len() {
                            (fields@[i].0@, fields@[i].1.shown())
                        } else {
                            (seq![], JsonV::Null)
                        },
                ),
            ),
        }
    }
}

impl DeepView for Json {
    type V = JsonV;

    open spec fn deep_view(&self) -> JsonV {
        self.shown()
    }
}

pub proof fn lemma_list_shown(items: Vec<Json>)
    ensures
        Json::List(items).deep_view() == JsonV::List(items.deep_view()),
{
    let shown = Json::List(items).shown();
    assert(shown->List_0 =~= items.deep_view());
}

pub proof fn lemma_object_shown(fields: Vec<(String, Json)>)
    ensures
        Json::Object(fields).deep_view() == JsonV::Object(fields.deep_view()),
{
    let shown = Json::Object(fields).shown();
    assert(shown->Object_0 =~= fields.deep_view());
}

pub open spec fn field_of(value: JsonV, key: Text) -> Option<JsonV> {
    match value {
        JsonV::Object(fields) => table::lookup(fields, key),
        _ => None,
    }
}

pub open spec fn str_of(value: Option<JsonV>) -> Option<Text> {
    match value {
        Some(JsonV::Str(s)) => Some(s),
        _ => None,
    }
}

pub open spec fn str_or(value: Option<JsonV>, other: Text) -> Text {
    match value {
        Some(JsonV::Str(s)) => s,
        _ => other,
    }
}

pub open spec fn whole_or(value: Option<JsonV>, other: u64) -> u64 {
    match value {
        Some(JsonV::Whole(n)) => n,
        _ => other,
    }
}

/// Whether a value says nothing: null, or an object without fields.
pub open spec fn is_nothing(value: JsonV) -> bool {
    match value {
        JsonV::Null => true,
        JsonV::Object(fields) => fields.len() == 0,
        _ => false,
    }
}

/// The word that names one of several kinds: a text, or the one key of an
/// object that says nothing under it.
pub open spec fn name_of(value: Option<JsonV>) -> Option<Text> {
    match value {
        Some(JsonV::Str(s)) => Some(s),
        Some(JsonV::Object(fields)) => if fields.len() == 1 && is_nothing(fields[0].1) {
            Some(fields[0].0)
        } else {
            None
        },
        _ => None,
    }
}

/// The fields that the items of a list stand for, where a record has its fields
/// in the order of `names` and only those after the first `least` may be left
/// out.
pub open spec fn listed_fields(items: Seq<JsonV>, names: Seq<Text>, least: nat) -> Option<
    Seq<(Text, JsonV)>,
> {
    if least <= items.len() <= names.len() {
        Some(Seq::new(items.len(), |i: int| (names[i], items[i])))
    } else {
        None
    }
}

/// The fields of a record: an object's own, where none that the record knows is
/// given twice, or those that a list stands for.
pub open spec fn record_of(
    value: JsonV,
    known: Seq<Text>,
    names: Seq<Text>,
    least: nat,
) -> Option<Seq<(Text, JsonV)>> {
    match value {
        JsonV::Object(fields) => if said::all_once(fields, known) {
            Some(fields)
        } else {
            None
        },
        JsonV::List(items) => listed_fields(items, names, least),
        _ => None,
    }
}

/// The items of a list, and none of anything else.
pub open spec fn items_of(value: Option<JsonV>) -> Seq<JsonV> {
    match value {
        Some(JsonV::List(items)) => items,
        _ => seq![],
    }
}

pub open spec fn fields_of(value: Option<JsonV>) -> Seq<(Text, JsonV)> {
    match value {
        Some(JsonV::Object(fields)) => fields,
        _ => seq![],
    }
}

/// The fields with one key set: replaced where it stands, or added at the end.
pub open spec fn with_field(fields: Seq<(Text, JsonV)>, key: Text, value: JsonV) -> Seq<(Text, JsonV)>
    decreases fields.len(),
{
    if fields.len() == 0 {
        seq![(key, value)]
    } else if fields[0].0 == key {
        seq![(key, value)] + fields.skip(1)
    } else {
        seq![fields[0]] + with_field(fields.skip(1), key, value)
    }
}

/// A field that was set is found again, and every other one is as it was.
pub proof fn lemma_with_field(
    fields: Seq<(Text, JsonV)>,
    key: Text,
    value: JsonV,
    other: Text,
)
    ensures
        table::lookup(with_field(fields, key, value), other) == (if other == key {
            Some(value)
        } else {
            table::lookup(fields, other)
        }),
    decreases fields.len(),
{
    let after = with_field(fields, key, value);
    if fields.len() == 0 {
        assert(after.skip(1) =~= fields);
    } else if fields[0].0 == key {
        assert(after.skip(1) =~= fields.skip(1));
    } else {
        lemma_with_field(fields.skip(1), key, value, other);
        assert(after.skip(1) =~= with_field(fields.skip(1), key, value));
    }
}

/// Looks a key up among fields.
pub fn field<'a>(fields: &'a Vec<(String, Json)>, key: &str) -> (value: Option<&'a Json>)
    ensures
        match value {
            Some(v) => table::lookup(fields.deep_view(), key@) == Some(v.deep_view()),
            None => table::lookup(fields.deep_view(), key@) is None,
        },
{
    let ghost all = fields.deep_view();
    let mut i: usize = 0;
    assert(all.skip(0) =~= all);
    while i < fields.len()
        invariant
            i <= fields.len(),
            all == fields.deep_view(),
            table::lookup(all, key@) == table::lookup(all.skip(i as int), key@),
        decreases fields.len() - i,
    {
        if text::same(fields[i].0.as_str(), key) {
            return Some(&fields[i].1);
        }
        assert(all.skip(i as int).skip(1) =~= all.skip(i + 1));
        i += 1;
    }
    None
}

/// Sets a key among fields.
pub fn set_field(fields: &mut Vec<(String, Json)>, key: &str, value: Json)
    ensures
        final(fields).deep_view() == with_field(old(fields).deep_view(), key@, value.deep_view()),
{
    let ghost all = fields.deep_view();
    let ghost shown = value.deep_view();
    let mut i: usize = 0;
    assert(all.skip(0) =~= all);
    assert(all.take(0) + with_field(all, key@, shown) =~= with_field(all, key@, shown));
    while i < fields.len()
        invariant
            i <= fields.len(),
            *fields == *old(fields),
            all == fields.deep_view(),
            shown == value.deep_view(),
            with_field(all, key@, shown) == all.take(i as int) + with_field(
                all.skip(i as int),
                key@,
                shown,
            ),
        decreases fields.len() - i,
    {
        if text::same(fields[i].0.as_str(), key) {
            let mut held = value;
            std::mem::swap(&mut fields[i].1, &mut held);
            assert(all.skip(i as int).skip(1) =~= all.skip(i + 1));
            assert(fields.deep_view() =~= with_field(all, key@, shown));
            return;
        }
        assert(all.skip(i as int).skip(1) =~= all.skip(i + 1));
        assert(all.take(i as int) + (seq![all[i as int]] + with_field(all.skip(i + 1), key@, shown))
            =~= all.take(i + 1) + with_field(all.skip(i + 1), key@, shown));
        i += 1;
    }
    fields.push((key.to_owned(), value));
    assert(fields.deep_view() =~= with_field(all, key@, shown));
}

/// Adds a field at the end of an object that is being written.
pub(crate) fn add(fields: &mut Vec<(String, Json)>, key: &str, value: Json)
    ensures
        final(fields).deep_view() == old(fields).deep_view().push((key@, value.deep_view())),
{
    text::push(fields, (key.to_owned(), value));
}

pub(crate) fn no_fields() -> (fields: Vec<(String, Json)>)
    ensures
        fields.deep_view() == Seq::<(Text, JsonV)>::empty(),
{
    let fields: Vec<(String, Json)> = Vec::new();
    assert(fields.deep_view() =~= Seq::<(Text, JsonV)>::empty());
    fields
}

impl Json {
    pub fn str(s: &str) -> (j: Json)
        ensures
            j.deep_view() == JsonV::Str(s@),
    {
        Json::Str(s.to_owned())
    }

    pub fn list(items: Vec<Json>) -> (j: Json)
        ensures
            j.deep_view() == JsonV::List(items.deep_view()),
    {
        proof {
            lemma_list_shown(items);
        }
        Json::List(items)
    }

    pub fn object(fields: Vec<(String, Json)>) -> (j: Json)
        ensures
            j.deep_view() == JsonV::Object(fields.deep_view()),
    {
        proof {
            lemma_object_shown(fields);
        }
        Json::Object(fields)
    }

    pub fn get(&self, key: &str) -> (value: Option<&Json>)
        ensures
            match value {
                Some(v) => field_of(self.deep_view(), key@) == Some(v.deep_view()),
                None => field_of(self.deep_view(), key@) is None,
            },
    {
        match self {
            Json::Object(fields) => {
                proof {
                    lemma_object_shown(*fields);
                }
                field(fields, key)
            },
            _ => None,
        }
    }

    pub fn as_str(&self) -> (s: Option<&String>)
        ensures
            s.deep_view() == str_of(Some(self.deep_view())),
    {
        match self {
            Json::Str(s) => Some(s),
            _ => None,
        }
    }

    pub fn as_list(&self) -> (items: Option<&Vec<Json>>)
        ensures
            match items {
                Some(v) => self.deep_view() == JsonV::List(v.deep_view()),
                None => !(self.deep_view() is List),
            },
    {
        match self {
            Json::List(items) => {
                proof {
                    lemma_list_shown(*items);
                }
                Some(items)
            },
            _ => None,
        }
    }

    pub fn as_object(&self) -> (fields: Option<&Vec<(String, Json)>>)
        ensures
            match fields {
                Some(v) => self.deep_view() == JsonV::Object(v.deep_view()),
                None => !(self.deep_view() is Object),
            },
    {
        match self {
            Json::Object(fields) => {
                proof {
                    lemma_object_shown(*fields);
                }
                Some(fields)
            },
            _ => None,
        }
    }

    /// The string under a key, or another one.
    pub fn text_at(&self, key: &str, other: &str) -> (s: String)
        ensures
            s@ == str_or(field_of(self.deep_view(), key@), other@),
    {
        match self.get(key) {
            Some(Json::Str(s)) => s.clone(),
            _ => other.to_owned(),
        }
    }

    /// The number under a key, or another one.
    pub fn whole_at(&self, key: &str, other: u64) -> (n: u64)
        ensures
            n == whole_or(field_of(self.deep_view(), key@), other),
    {
        match self.get(key) {
            Some(Json::Whole(n)) => *n,
            _ => other,
        }
    }

    pub fn copy(&self) -> (j: Json)
        ensures
            j.deep_view() == self.deep_view(),
        decreases self,
    {
        match self {
            Json::Null => Json::Null,
            Json::Bool(b) => Json::Bool(*b),
            Json::Whole(n) => Json::Whole(*n),
            Json::Minus(n) => Json::Minus(*n),
            Json::Part(r) => Json::Part(r.copy()),
            Json::Str(s) => Json::Str(s.clone()),
            Json::List(items) => {
                let mut out: Vec<Json> = Vec::new();
                let mut i: usize = 0;
                while i < items.len()
                    invariant
                        i <= items.len(),
                        *self == Json::List(*items),
                        out@.len() == i,
                        forall|k: int| 0 <= k < i ==> (#[trigger] out@[k]).shown() == items@[k].shown(),
                    decreases items.len() - i,
                {
                    assert(decreases_to!(*self => self->List_0));
                    assert(decreases_to!(*items => items@));
                    assert(decreases_to!(items@ => items@[i as int]));
                    let item = items[i].copy();
                    out.push(item);
                    i += 1;
                }
                proof {
                    lemma_list_shown(out);
                    lemma_list_shown(*items);
                    assert(out.deep_view() =~= items.deep_view());
                }
                Json::List(out)
            },
            Json::Object(fields) => {
                let mut out: Vec<(String, Json)> = Vec::new();
                let mut i: usize = 0;
                while i < fields.len()
                    invariant
                        i <= fields.len(),
                        *self == Json::Object(*fields),
                        out@.len() == i,
                        forall|k: int|
                            0 <= k < i ==> (#[trigger] out@[k]).0@ == fields@[k].0@
                                && out@[k].1.shown() == fields@[k].1.shown(),
                    decreases fields.len() - i,
                {
                    let name = fields[i].0.clone();
                    assert(decreases_to!(*self => self->Object_0));
                    assert(decreases_to!(*fields => fields@));
                    assert(decreases_to!(fields@ => fields@[i as int]));
                    assert(decreases_to!(fields@[i as int] => fields@[i as int].1));
                    let value = fields[i].1.copy();
                    out.push((name, value));
                    i += 1;
                }
                proof {
                    lemma_object_shown(out);
                    lemma_object_shown(*fields);
                    assert(out.deep_view() =~= fields.deep_view());
                }
                Json::Object(out)
            },
        }
    }

    pub fn same(&self, other: &Json) -> (r: bool)
        ensures
            r == (self.deep_view() == other.deep_view()),
        decreases self,
    {
        match (self, other) {
            (Json::Null, Json::Null) => true,
            (Json::Bool(a), Json::Bool(b)) => *a == *b,
            (Json::Whole(a), Json::Whole(b)) => *a == *b,
            (Json::Minus(a), Json::Minus(b)) => *a == *b,
            (Json::Part(a), Json::Part(b)) => a.same(b),
            (Json::Str(a), Json::Str(b)) => *a == *b,
            (Json::List(a), Json::List(b)) => {
                proof {
                    lemma_list_shown(*a);
                    lemma_list_shown(*b);
                }
                if a.len() != b.len() {
                    assert(a.deep_view().len() != b.deep_view().len());
                    return false;
                }
                let mut i: usize = 0;
                while i < a.len()
                    invariant
                        i <= a.len(),
                        a.len() == b.len(),
                        *self == Json::List(*a),
                        self.deep_view() == JsonV::List(a.deep_view()),
                        other.deep_view() == JsonV::List(b.deep_view()),
                        forall|k: int| 0 <= k < i ==> (#[trigger] a@[k]).shown() == b@[k].shown(),
                    decreases a.len() - i,
                {
                    assert(decreases_to!(*self => self->List_0));
                    assert(decreases_to!(*a => a@));
                    assert(decreases_to!(a@ => a@[i as int]));
                    if !a[i].same(&b[i]) {
                        assert(a.deep_view()[i as int] != b.deep_view()[i as int]);
                        return false;
                    }
                    i += 1;
                }
                assert(a.deep_view() =~= b.deep_view());
                true
            },
            (Json::Object(a), Json::Object(b)) => {
                proof {
                    lemma_object_shown(*a);
                    lemma_object_shown(*b);
                }
                if a.len() != b.len() {
                    assert(a.deep_view().len() != b.deep_view().len());
                    return false;
                }
                let mut i: usize = 0;
                while i < a.len()
                    invariant
                        i <= a.len(),
                        a.len() == b.len(),
                        *self == Json::Object(*a),
                        self.deep_view() == JsonV::Object(a.deep_view()),
                        other.deep_view() == JsonV::Object(b.deep_view()),
                        forall|k: int|
                            0 <= k < i ==> (#[trigger] a@[k]).0@ == b@[k].0@ && a@[k].1.shown()
                                == b@[k].1.shown(),
                    decreases a.len() - i,
                {
                    assert(decreases_to!(*self => self->Object_0));
                    assert(decreases_to!(*a => a@));
                    assert(decreases_to!(a@ => a@[i as int]));
                    assert(decreases_to!(a@[i as int] => a@[i as int].1));
                    if a[i].0 != b[i].0 || !a[i].1.same(&b[i].1) {
                        assert(a.deep_view()[i as int] != b.deep_view()[i as int]);
                        return false;
                    }
                    i += 1;
                }
                assert(a.deep_view() =~= b.deep_view());
                true
            },
            _ => false,
        }
    }
}

pub fn same_fields(a: &Vec<(String, Json)>, b: &Vec<(String, Json)>) -> (r: bool)
    ensures
        r == (a.deep_view() == b.deep_view()),
{
    if a.len() != b.len() {
        assert(a.deep_view().len() != b.deep_view().len());
        return false;
    }
    let mut i: usize = 0;
    while i < a.len()
        invariant
            i <= a.len(),
            a.len() == b.len(),
            forall|k: int| 0 <= k < i ==> #[trigger] a.deep_view()[k] == b.deep_view()[k],
        decreases a.len() - i,
    {
        if a[i].0 != b[i].0 || !a[i].1.same(&b[i].1) {
            assert(a.deep_view()[i as int] != b.deep_view()[i as int]);
            return false;
        }
        i += 1;
    }
    assert(a.deep_view() =~= b.deep_view());
    true
}

pub(crate) fn read_name(value: Option<&Json>) -> (s: Option<String>)
    ensures
        s.deep_view() == name_of(value.deep_view()),
{
    match value {
        Some(Json::Str(s)) => Some(s.clone()),
        Some(Json::Object(fields)) => {
            proof {
                lemma_object_shown(*fields);
            }
            if fields.len() != 1 {
                return None;
            }
            assert(fields.deep_view()[0] == fields@[0].deep_view());
            let nothing = match &fields[0].1 {
                Json::Null => true,
                Json::Object(inner) => {
                    proof {
                        lemma_object_shown(*inner);
                    }
                    inner.len() == 0
                },
                _ => false,
            };
            if nothing {
                Some(fields[0].0.clone())
            } else {
                None
            }
        },
        _ => None,
    }
}

/// Names the items of a list.
pub(crate) fn list_fields(items: &Vec<Json>, names: &Vec<String>, least: usize) -> (fields: Option<
    Vec<(String, Json)>,
>)
    ensures
        fields.deep_view() == listed_fields(items.deep_view(), names.deep_view(), least as nat),
{
    if items.len() < least || names.len() < items.len() {
        return None;
    }
    let mut out: Vec<(String, Json)> = Vec::new();
    let mut i: usize = 0;
    while i < items.len()
        invariant
            i <= items.len() <= names.len(),
            out@.len() == i,
            forall|k: int|
                0 <= k < i ==> #[trigger] out.deep_view()[k] == (
                    names.deep_view()[k],
                    items.deep_view()[k],
                ),
        decreases items.len() - i,
    {
        text::push(&mut out, (names[i].clone(), items[i].copy()));
        i += 1;
    }
    assert(out.deep_view() =~= listed_fields(
        items.deep_view(),
        names.deep_view(),
        least as nat,
    )->Some_0);
    Some(out)
}

/// Texts out of literals.
pub(crate) fn words(all: &[&str]) -> (out: Vec<String>)
    ensures
        out.deep_view() == Seq::new(all@.len(), |i: int| all@[i]@),
{
    let mut out: Vec<String> = Vec::new();
    let mut i: usize = 0;
    while i < all.len()
        invariant
            i <= all.len(),
            out@.len() == i,
            forall|k: int| 0 <= k < i ==> #[trigger] out.deep_view()[k] == all@[k]@,
        decreases all.len() - i,
    {
        text::push(&mut out, all[i].to_owned());
        i += 1;
    }
    assert(out.deep_view() =~= Seq::new(all@.len(), |i: int| all@[i]@));
    out
}

/// An object with one field.
pub(crate) fn holding(key: &str, value: Json) -> (j: Json)
    ensures
        j.deep_view() == JsonV::Object(seq![(key@, value.deep_view())]),
{
    let mut fields = no_fields();
    self::add(&mut fields, key, value);
    assert(fields.deep_view() =~= seq![(key@, value.deep_view())]);
    Json::object(fields)
}

/// A list of one item.
pub(crate) fn only(value: Json) -> (j: Json)
    ensures
        j.deep_view() == JsonV::List(seq![value.deep_view()]),
{
    let mut items: Vec<Json> = Vec::new();
    text::push(&mut items, value);
    assert(items.deep_view() =~= seq![value.deep_view()]);
    Json::list(items)
}

pub fn copy_fields(fields: &Vec<(String, Json)>) -> (out: Vec<(String, Json)>)
    ensures
        out.deep_view() == fields.deep_view(),
{
    let mut out: Vec<(String, Json)> = Vec::new();
    let mut i: usize = 0;
    while i < fields.len()
        invariant
            i <= fields.len(),
            out.deep_view() == fields.deep_view().take(i as int),
        decreases fields.len() - i,
    {
        text::push(&mut out, (fields[i].0.clone(), fields[i].1.copy()));
        assert(out.deep_view() =~= fields.deep_view().take(i + 1));
        i += 1;
    }
    assert(out.deep_view() =~= fields.deep_view());
    out
}

// --- text --------------------------------------------------------------------

/// `serde_json`'s own value, which is what its text is read into.
#[verifier::external_type_specification]
#[verifier::external_body]
pub struct ExValue(Value);

/// What a `serde_json::Value` holds.
pub uninterp spec fn json_held(value: Value) -> JsonV;

/// What `serde_json::from_str` reads out of a text, or the words it refuses it
/// with.
pub uninterp spec fn json_parse(source: Text) -> Result<JsonV, Text>;

/// The value a text is, when it is one.
pub open spec fn json_read(source: Text) -> Option<JsonV> {
    match json_parse(source) {
        Ok(j) => Some(j),
        Err(_) => None,
    }
}

/// The number that `Value::as_f64` takes a value for, when it is one.
pub uninterp spec fn json_number(value: JsonV) -> Option<RealV>;

/// What a value holds once `serde_json` has taken it: itself, where every
/// number is one that `serde_json` can hold.
pub uninterp spec fn json_stored(value: JsonV) -> JsonV;

/// The text that `serde_json` writes for a value, on one line.
pub uninterp spec fn json_written(value: JsonV) -> Text;

/// The text that `serde_json` writes for a value, indented.
pub uninterp spec fn json_laid_out(value: JsonV) -> Text;

pub open spec fn is_number(value: JsonV) -> bool {
    value is Whole || value is Minus || value is Part
}

/// The number a value is, when it is one.
pub open spec fn real_of(value: JsonV) -> Option<RealV> {
    match value {
        JsonV::Part(r) => Some(r),
        JsonV::Whole(_) => json_number(json_stored(value)),
        JsonV::Minus(_) => json_number(json_stored(value)),
        _ => None,
    }
}

pub open spec fn distinct_keys(fields: Seq<(Text, JsonV)>) -> bool {
    forall|i: int, j: int|
        0 <= i < j < fields.len() ==> #[trigger] fields[i].0 != #[trigger] fields[j].0
}

/// A value without fractions, nested at most `depth` deep, in which no object
/// has a key twice. Such a value survives being written and read.
pub open spec fn plain(value: JsonV, depth: nat) -> bool
    decreases depth,
{
    match value {
        JsonV::Null => true,
        JsonV::Bool(_) => true,
        JsonV::Whole(_) => true,
        JsonV::Minus(n) => n < 0,
        JsonV::Part(_) => false,
        JsonV::Str(_) => true,
        JsonV::List(items) => depth > 0 && forall|i: int|
            0 <= i < items.len() ==> plain(#[trigger] items[i], (depth - 1) as nat),
        JsonV::Object(fields) => depth > 0 && distinct_keys(fields) && forall|i: int|
            0 <= i < fields.len() ==> plain((#[trigger] fields[i]).1, (depth - 1) as nat),
    }
}

/// How deep a value may nest and still be read back.
pub open spec fn depth_limit() -> nat {
    100
}

/// Calls `serde_json::from_str`. Which texts it reads, what it reads and the
/// words of its error depend on the text alone.
#[verifier::external_body]
fn read_value(source: &str) -> (value: Result<Value, String>)
    ensures
        match value {
            Ok(v) => json_parse(source@) == Ok::<JsonV, Text>(json_held(v)),
            Err(e) => json_parse(source@) == Err::<JsonV, Text>(e@),
        },
{
    serde_json::from_str(source).map_err(|e| e.to_string())
}

/// Calls `as_f64` on a `serde_json::Value`. Every number has one and nothing
/// else does, and a fraction is its own.
#[verifier::external_body]
fn value_number(value: &Value) -> (r: Option<Real>)
    ensures
        r.deep_view() == json_number(json_held(*value)),
        r is Some <==> is_number(json_held(*value)),
        match json_held(*value) {
            JsonV::Part(held) => r.deep_view() == Some(held),
            _ => true,
        },
{
    value.as_f64().map(|x| Real { bits: x.to_bits(), text: x.to_string() })
}

/// Takes a `serde_json::Value` apart that is neither a list nor an object, one
/// variant for one. A number is taken as `u64` where `as_u64` gives one, else as
/// `i64`, else by the bits and the decimal text of what `as_f64` gives.
#[verifier::external_body]
fn from_leaf(value: &Value) -> (j: Json)
    ensures
        !(json_held(*value) is List) && !(json_held(*value) is Object) ==> j.deep_view()
            == json_held(*value),
{
    match value {
        Value::Bool(b) => Json::Bool(*b),
        Value::Number(n) => match (n.as_u64(), n.as_i64(), n.as_f64()) {
            (Some(u), _, _) => Json::Whole(u),
            (_, Some(i), _) => Json::Minus(i),
            (_, _, Some(x)) => Json::Part(Real { bits: x.to_bits(), text: x.to_string() }),
            _ => Json::Null,
        },
        Value::String(s) => Json::Str(s.clone()),
        _ => Json::Null,
    }
}

/// Takes a `serde_json::Value` apart, item by item and field by field in the
/// order it holds them.
#[verifier::external_body]
fn from_value(value: Value) -> (j: Json)
    ensures
        j.deep_view() == json_held(value),
{
    match value {
        Value::Array(items) => Json::List(items.into_iter().map(from_value).collect()),
        Value::Object(map) => {
            Json::Object(map.into_iter().map(|(k, v)| (k, from_value(v))).collect())
        },
        leaf => from_leaf(&leaf),
    }
}

/// Makes a `serde_json::Value`, one variant for one. A fraction goes through
/// `serde_json::Number`'s own reading of its decimal text, and what that refuses
/// becomes `Null`; of a key that is given twice the map keeps the last value.
#[verifier::external_body]
fn to_value(j: &Json) -> (value: Value)
    ensures
        json_held(value) == json_stored(j.deep_view()),
        plain(j.deep_view(), depth_limit()) ==> json_held(value) == j.deep_view(),
        j is Whole || j is Minus ==> is_number(json_held(value)),
{
    match j {
        Json::Null => Value::Null,
        Json::Bool(b) => Value::Bool(*b),
        Json::Whole(n) => Value::from(*n),
        Json::Minus(n) => Value::from(*n),
        Json::Part(r) => serde_json::from_str(&format!("{}e0", r.text)).unwrap_or_default(),
        Json::Str(s) => Value::String(s.clone()),
        Json::List(items) => Value::Array(items.iter().map(to_value).collect()),
        Json::Object(fields) => {
            Value::Object(fields.iter().map(|(k, v)| (k.clone(), to_value(v))).collect())
        },
    }
}

/// Calls `to_string` on a `serde_json::Value`, which writes it on one line with
/// every control character of a string escaped. An object begins with a brace.
/// What is written reads back as the value, whole and taken apart, where the
/// value is plain and not nested deeper than the reader goes.
#[verifier::external_body]
fn value_text(value: &Value) -> (s: String)
    ensures
        s@ == json_written(json_held(*value)),
        plain(json_held(*value), depth_limit()) ==> json_read(s@) == Some(json_held(*value)),
        plain(json_held(*value), depth_limit()) ==> said::heard(s@) == Some(json_held(*value)),
        forall|i: int| 0 <= i < s@.len() ==> s@[i] != '\n' && s@[i] != '\r',
        json_held(*value) is Object ==> s@.len() > 0 && s@[0] == '{',
{
    value.to_string()
}

/// Calls `serde_json::to_string_pretty` on a value; a `serde_json::Value` is
/// never refused.
#[verifier::external_body]
fn value_layout(value: &Value) -> (s: String)
    ensures
        s@ == json_laid_out(json_held(*value)),
{
    serde_json::to_string_pretty(value).unwrap_or_default()
}

impl Json {
    /// Reads a value out of a text.
    pub fn parse(source: &str) -> (j: Option<Json>)
        ensures
            j.deep_view() == json_read(source@),
    {
        match read_value(source) {
            Ok(value) => Some(from_value(value)),
            Err(_) => None,
        }
    }

    /// Reads a value out of a text, or says what is wrong with it.
    pub fn read(source: &str) -> (j: Result<Json, String>)
        ensures
            match j {
                Ok(v) => json_parse(source@) == Ok::<JsonV, Text>(v.deep_view()),
                Err(e) => json_parse(source@) == Err::<JsonV, Text>(e@),
            },
    {
        match read_value(source) {
            Ok(value) => Ok(from_value(value)),
            Err(e) => Err(e),
        }
    }

    /// The number a value is, when it is one.
    pub fn as_real(&self) -> (r: Option<Real>)
        ensures
            r.deep_view() == real_of(self.deep_view()),
            r is Some <==> is_number(self.deep_view()),
    {
        match self {
            Json::Part(r) => Some(r.copy()),
            Json::Whole(_) => value_number(&to_value(self)),
            Json::Minus(_) => value_number(&to_value(self)),
            _ => None,
        }
    }

    /// Writes a value on one line. A plain value reads back as it was.
    pub fn write(&self) -> (s: String)
        ensures
            s@ == json_written(json_stored(self.deep_view())),
            plain(self.deep_view(), depth_limit()) ==> json_read(s@) == Some(self.deep_view())
                && said::heard(s@) == Some(self.deep_view()) && s@ == json_written(
                self.deep_view(),
            ),
            forall|i: int| 0 <= i < s@.len() ==> s@[i] != '\n' && s@[i] != '\r',
            plain(self.deep_view(), depth_limit()) && self.deep_view() is Object ==> s@.len() > 0
                && s@[0] == '{',
    {
        value_text(&to_value(self))
    }

    /// Writes a value indented, for a reader.
    pub fn lay_out(&self) -> (s: String)
        ensures
            s@ == json_laid_out(json_stored(self.deep_view())),
    {
        value_layout(&to_value(self))
    }
}

}
