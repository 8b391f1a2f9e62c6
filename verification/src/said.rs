//! JSON as it is said.
//!
//! `serde_json`'s own value holds each key of an object once. A record that is
//! read field by field has to know of a key that was given twice, so an object
//! is taken apart here: `serde_json` says where each key and each value in it
//! ends and what the small ones are, and what stands between them is read here.
//! A field that a record does not know may hold what `serde_json` passes over but
//! would not read, such as a number out of range.

use serde::de::IgnoredAny;
use vstd::prelude::*;

use crate::json::{self, Json, JsonV};
use crate::text::{self, Text};

verus! {

// --- blanks ------------------------------------------------------------------

/// What JSON lets stand between its signs.
pub open spec fn is_blank(c: char) -> bool {
    c == ' ' || c == '\n' || c == '\t' || c == '\r'
}

/// A text from its first sign on.
pub open spec fn from_sign(s: Text) -> Text
    decreases s.len(),
{
    if s.len() > 0 && is_blank(s[0]) {
        from_sign(s.skip(1))
    } else {
        s
    }
}

pub proof fn lemma_from_sign(s: Text)
    ensures
        from_sign(s).len() <= s.len(),
    decreases s.len(),
{
    if s.len() > 0 && is_blank(s[0]) {
        lemma_from_sign(s.skip(1));
    }
}

fn skip_blanks(s: &str) -> (out: String)
    ensures
        out@ == from_sign(s@),
{
    let chars = text::to_chars(s);
    let mut i: usize = 0;
    assert(s@.skip(0) =~= s@);
    while i < chars.len() && (chars[i] == ' ' || chars[i] == '\n' || chars[i] == '\t' || chars[i]
        == '\r')
        invariant
            i <= chars.len(),
            chars@ == s@,
            from_sign(s@) == from_sign(s@.skip(i as int)),
        decreases chars.len() - i,
    {
        assert(s@.skip(i as int).skip(1) =~= s@.skip(i + 1));
        i += 1;
    }
    assert(chars@.subrange(i as int, chars@.len() as int) =~= s@.skip(i as int));
    text::slice(&chars, i, chars.len())
}

/// A text without its first `n` characters.
fn after(s: &str, n: usize) -> (out: String)
    requires
        n <= s@.len(),
    ensures
        out@ == s@.skip(n as int),
{
    let chars = text::to_chars(s);
    assert(chars@.subrange(n as int, chars@.len() as int) =~= s@.skip(n as int));
    text::slice(&chars, n, chars.len())
}

fn begins(s: &str, c: char) -> (r: bool)
    ensures
        r == (s@.len() > 0 && s@[0] == c),
{
    let chars = text::to_chars(s);
    chars.len() > 0 && chars[0] == c
}

// --- values ------------------------------------------------------------------

/// The text of the value that a text begins with, where `serde_json` finds one
/// there.
pub uninterp spec fn json_first(source: Text) -> Option<Text>;

/// Reads one value off the front of a text with `serde_json::StreamDeserializer`,
/// and takes the text up to its `byte_offset`. That is some of the text, from its
/// start on.
#[verifier::external_body]
fn first_value(source: &str) -> (first: Option<String>)
    ensures
        first.deep_view() == json_first(source@),
        match first {
            Some(s) => 0 < s@.len() <= source@.len() && s@ == source@.take(s@.len() as int),
            None => true,
        },
{
    let mut values = serde_json::Deserializer::from_str(source).into_iter::<IgnoredAny>();
    let read = values.next().and_then(|value| value.ok());
    let end = values.byte_offset();
    read.and_then(|_| source.get(..end)).map(|s| s.to_string())
}

/// The value that a text begins with, and what stands behind it.
pub open spec fn parted(source: Text) -> Option<(Text, Text)> {
    match json_first(source) {
        Some(v) => if 0 < v.len() <= source.len() {
            Some((v, source.skip(v.len() as int)))
        } else {
            None
        },
        None => None,
    }
}

/// How deep a text is taken apart. What `serde_json` reads is not nested deeper.
pub const DEPTH: usize = 128;

/// What stands for a value that is passed over and not read: something that no
/// field of a record takes.
pub open spec fn passed_over() -> JsonV {
    JsonV::List(seq![JsonV::Object(seq![])])
}

fn pass_over() -> (j: Json)
    ensures
        j.deep_view() == passed_over(),
{
    let none = json::no_fields();
    assert(none.deep_view() =~= seq![]);
    let mut items: Vec<Json> = Vec::new();
    assert(items.deep_view() =~= seq![]);
    text::push(&mut items, Json::object(none));
    assert(items.deep_view() =~= seq![JsonV::Object(seq![])]);
    Json::list(items)
}

/// The value that a text says, with every key as often as it is given, down to a
/// depth.
pub open spec fn said(source: Text, depth: nat) -> Option<JsonV>
    decreases source.len(), 0nat,
{
    proof {
        lemma_from_sign(source);
        lemma_from_sign(from_sign(source).skip(1));
    }
    let s = from_sign(source);
    if s.len() > 0 && (s[0] == '{' || s[0] == '[') {
        let rest = from_sign(s.skip(1));
        if depth == 0 {
            Some(passed_over())
        } else if s[0] == '{' {
            if rest.len() > 0 && rest[0] == '}' {
                Some(JsonV::Object(seq![]))
            } else {
                said_fields(seq![], rest, (depth - 1) as nat)
            }
        } else if rest.len() > 0 && rest[0] == ']' {
            Some(JsonV::List(seq![]))
        } else {
            said_items(seq![], rest, (depth - 1) as nat)
        }
    } else {
        match json::json_read(source) {
            Some(leaf) => Some(leaf),
            None => Some(passed_over()),
        }
    }
}

/// The object that has some fields, and those that a text goes on with.
pub open spec fn said_fields(done: Seq<(Text, JsonV)>, rest: Text, depth: nat) -> Option<JsonV>
    decreases rest.len(), 1nat,
{
    match parted(rest) {
        Some((k, r)) => {
            proof {
                lemma_from_sign(r);
            }
            let r = from_sign(r);
            match json::json_read(k) {
                Some(JsonV::Str(key)) if r.len() > 0 && r[0] == ':' => match parted(r.skip(1)) {
                    Some((v, b)) => {
                        proof {
                            lemma_from_sign(b);
                        }
                        let b = from_sign(b);
                        match said(v, depth) {
                            Some(value) if b.len() > 0 && b[0] == ',' => said_fields(
                                done.push((key, value)),
                                b.skip(1),
                                depth,
                            ),
                            Some(value) if b.len() > 0 && b[0] == '}' => Some(
                                JsonV::Object(done.push((key, value))),
                            ),
                            _ => None,
                        }
                    },
                    None => None,
                },
                _ => None,
            }
        },
        None => None,
    }
}

/// The list that has some items, and those that a text goes on with.
pub open spec fn said_items(done: Seq<JsonV>, rest: Text, depth: nat) -> Option<JsonV>
    decreases rest.len(), 1nat,
{
    match parted(rest) {
        Some((v, b)) => {
            proof {
                lemma_from_sign(b);
            }
            let b = from_sign(b);
            match said(v, depth) {
                Some(value) if b.len() > 0 && b[0] == ',' => said_items(
                    done.push(value),
                    b.skip(1),
                    depth,
                ),
                Some(value) if b.len() > 0 && b[0] == ']' => Some(
                    JsonV::List(done.push(value)),
                ),
                _ => None,
            }
        },
        None => None,
    }
}

/// Reads a value as it is said.
fn hear(source: &str, depth: usize) -> (j: Option<Json>)
    ensures
        j.deep_view() == said(source@, depth as nat),
    decreases source@.len(), 0nat,
{
    proof {
        lemma_from_sign(source@);
        lemma_from_sign(from_sign(source@).skip(1));
    }
    let s = skip_blanks(source);
    let object = begins(s.as_str(), '{');
    if !object && !begins(s.as_str(), '[') {
        return match Json::parse(source) {
            Some(leaf) => Some(leaf),
            None => Some(pass_over()),
        };
    }
    if depth == 0 {
        return Some(pass_over());
    }
    let rest = skip_blanks(after(s.as_str(), 1).as_str());
    if object {
        if begins(rest.as_str(), '}') {
            return Some(Json::object(json::no_fields()));
        }
        hear_fields(rest, depth - 1)
    } else {
        if begins(rest.as_str(), ']') {
            let none: Vec<Json> = Vec::new();
            assert(none.deep_view() =~= seq![]);
            return Some(Json::list(none));
        }
        hear_items(rest, depth - 1)
    }
}

fn hear_fields(start: String, depth: usize) -> (j: Option<Json>)
    ensures
        j.deep_view() == said_fields(seq![], start@, depth as nat),
    decreases start@.len(), 1nat,
{
    let mut out = json::no_fields();
    let mut rest = start;
    assert(out.deep_view() =~= seq![]);
    loop
        invariant_except_break
            said_fields(seq![], start@, depth as nat) == said_fields(out.deep_view(), rest@, depth as nat),
            rest@.len() <= start@.len(),
        ensures
            said_fields(seq![], start@, depth as nat) == Some(JsonV::Object(out.deep_view())),
        decreases rest@.len(),
    {
        let (k, r) = match part(rest.as_str()) {
            Some(pair) => pair,
            None => return None,
        };
        let key = match Json::parse(k.as_str()) {
            Some(Json::Str(key)) => key,
            _ => return None,
        };
        proof {
            lemma_from_sign(r@);
        }
        let r = skip_blanks(r.as_str());
        if !begins(r.as_str(), ':') {
            return None;
        }
        let (v, b) = match part(after(r.as_str(), 1).as_str()) {
            Some(pair) => pair,
            None => return None,
        };
        let value = match hear(v.as_str(), depth) {
            Some(value) => value,
            None => return None,
        };
        proof {
            lemma_from_sign(b@);
        }
        let b = skip_blanks(b.as_str());
        if begins(b.as_str(), ',') {
            text::push(&mut out, (key, value));
            rest = after(b.as_str(), 1);
        } else if begins(b.as_str(), '}') {
            text::push(&mut out, (key, value));
            break;
        } else {
            return None;
        }
    }
    Some(Json::object(out))
}

fn hear_items(start: String, depth: usize) -> (j: Option<Json>)
    ensures
        j.deep_view() == said_items(seq![], start@, depth as nat),
    decreases start@.len(), 1nat,
{
    let mut out: Vec<Json> = Vec::new();
    let mut rest = start;
    assert(out.deep_view() =~= seq![]);
    loop
        invariant_except_break
            said_items(seq![], start@, depth as nat) == said_items(out.deep_view(), rest@, depth as nat),
            rest@.len() <= start@.len(),
        ensures
            said_items(seq![], start@, depth as nat) == Some(JsonV::List(out.deep_view())),
        decreases rest@.len(),
    {
        let (v, b) = match part(rest.as_str()) {
            Some(pair) => pair,
            None => return None,
        };
        let value = match hear(v.as_str(), depth) {
            Some(value) => value,
            None => return None,
        };
        proof {
            lemma_from_sign(b@);
        }
        let b = skip_blanks(b.as_str());
        if begins(b.as_str(), ',') {
            text::push(&mut out, value);
            rest = after(b.as_str(), 1);
        } else if begins(b.as_str(), ']') {
            text::push(&mut out, value);
            break;
        } else {
            return None;
        }
    }
    Some(Json::list(out))
}

fn part(source: &str) -> (parts: Option<(String, String)>)
    ensures
        parts.deep_view() == parted(source@),
        match parts {
            Some((v, rest)) => v@.len() + rest@.len() == source@.len() && v@.len() > 0,
            None => true,
        },
{
    match first_value(source) {
        Some(v) => {
            let n: usize = text::to_chars(v.as_str()).len();
            let rest = after(source, n);
            Some((v, rest))
        },
        None => None,
    }
}

/// Whether `serde_json` passes over a text as one value, or what it finds wrong
/// with it, in its words.
pub uninterp spec fn json_passed(source: Text) -> Result<(), Text>;

/// Calls `serde_json::from_str` for an `IgnoredAny`, which takes a text that is
/// one value and keeps none of it. Whether it does, and the words it refuses a
/// text with, depend on the text alone.
#[verifier::external_body]
fn pass(source: &str) -> (passed: Result<(), String>)
    ensures
        match passed {
            Ok(()) => json_passed(source@) == Ok::<(), Text>(()),
            Err(e) => json_passed(source@) == Err::<(), Text>(e@),
        },
{
    serde_json::from_str::<IgnoredAny>(source).map(drop).map_err(|e| e.to_string())
}

/// What a text says, where it is one value.
pub open spec fn heard(source: Text) -> Option<JsonV> {
    match json_passed(source) {
        Ok(_) => said(source, DEPTH as nat),
        Err(_) => None,
    }
}

/// Reads a value as it is said, or says what is wrong with the text.
pub fn read(source: &str) -> (j: Result<Json, String>)
    ensures
        match j {
            Ok(v) => heard(source@) == Some(v.deep_view()),
            Err(e) => heard(source@) is None && match json_passed(source@) {
                Ok(_) => e@ == "not a value"@,
                Err(words) => e@ == words,
            },
        },
{
    match pass(source) {
        Ok(()) => match hear(source, DEPTH) {
            Some(j) => Ok(j),
            None => Err("not a value".to_owned()),
        },
        Err(e) => Err(e),
    }
}

// --- keys that are given twice -----------------------------------------------

/// Whether no two fields have a key.
pub open spec fn at_most_once(fields: Seq<(Text, JsonV)>, key: Text) -> bool {
    forall|i: int, j: int|
        0 <= i < j < fields.len() && #[trigger] fields[i].0 == key ==> #[trigger] fields[j].0
            != key
}

/// Whether none of some keys is given twice.
pub open spec fn all_once(fields: Seq<(Text, JsonV)>, keys: Seq<Text>) -> bool {
    forall|k: int| 0 <= k < keys.len() ==> at_most_once(fields, #[trigger] keys[k])
}

fn is_once(fields: &Vec<(String, Json)>, key: &str) -> (r: bool)
    ensures
        r == at_most_once(fields.deep_view(), key@),
{
    let mut found = false;
    let ghost mut at: int = 0;
    let ghost all = fields.deep_view();
    let mut i: usize = 0;
    while i < fields.len()
        invariant
            i <= fields.len(),
            all == fields.deep_view(),
            found ==> 0 <= at < i && all[at].0 == key@,
            forall|k: int| 0 <= k < i && #[trigger] all[k].0 == key@ ==> found && k == at,
        decreases fields.len() - i,
    {
        assert(all[i as int] == fields@[i as int].deep_view());
        if text::same(fields[i].0.as_str(), key) {
            if found {
                assert(all[at].0 == key@ && all[i as int].0 == key@);
                return false;
            }
            found = true;
            proof {
                at = i as int;
            }
        }
        i += 1;
    }
    true
}

pub(crate) fn are_once(fields: &Vec<(String, Json)>, keys: &Vec<String>) -> (r: bool)
    ensures
        r == all_once(fields.deep_view(), keys.deep_view()),
{
    let mut i: usize = 0;
    while i < keys.len()
        invariant
            i <= keys.len(),
            forall|k: int|
                0 <= k < i ==> at_most_once(fields.deep_view(), #[trigger] keys.deep_view()[k]),
        decreases keys.len() - i,
    {
        assert(keys.deep_view()[i as int] == keys@[i as int]@);
        if !is_once(fields, keys[i].as_str()) {
            return false;
        }
        i += 1;
    }
    true
}

/// Where no key is given twice, none of some is.
pub proof fn lemma_once(fields: Seq<(Text, JsonV)>, keys: Seq<Text>)
    requires
        json::distinct_keys(fields),
    ensures
        all_once(fields, keys),
{
}

/// A value as `serde_json`'s own holds it: of a key that is given twice, in its
/// first place, the last value.
pub open spec fn settled(value: JsonV) -> JsonV
    decreases value, 0nat,
{
    match value {
        JsonV::List(items) => JsonV::List(
            Seq::new(
                items.len(),
                |i: int|
                    if 0 <= i < items.len() {
                        settled(items[i])
                    } else {
                        JsonV::Null
                    },
            ),
        ),
        JsonV::Object(fields) => JsonV::Object(settled_fields(fields, fields.len())),
        _ => value,
    }
}

pub open spec fn settled_fields(fields: Seq<(Text, JsonV)>, n: nat) -> Seq<(Text, JsonV)>
    decreases fields, n,
{
    if n == 0 || n > fields.len() {
        seq![]
    } else {
        proof {
            assert(decreases_to!(fields => fields[n - 1]));
            assert(decreases_to!(fields[n - 1] => fields[n - 1].1));
        }
        json::with_field(
            settled_fields(fields, (n - 1) as nat),
            fields[n - 1].0,
            settled(fields[n - 1].1),
        )
    }
}

fn settle(value: &Json) -> (out: Json)
    ensures
        out.deep_view() == settled(value.deep_view()),
    decreases value, 0nat,
{
    match value {
        Json::List(items) => {
            let mut out: Vec<Json> = Vec::new();
            let mut i: usize = 0;
            proof {
                json::lemma_list_shown(*items);
            }
            while i < items.len()
                invariant
                    i <= items.len(),
                    *value == Json::List(*items),
                    out@.len() == i,
                    forall|k: int|
                        0 <= k < i ==> #[trigger] out.deep_view()[k] == settled(
                            items.deep_view()[k],
                        ),
                decreases items.len() - i,
            {
                assert(decreases_to!(*value => value->List_0));
                assert(decreases_to!(*items => items@));
                assert(decreases_to!(items@ => items@[i as int]));
                let item = settle(&items[i]);
                text::push(&mut out, item);
                i += 1;
            }
            assert(out.deep_view() =~= settled(value.deep_view())->List_0);
            Json::list(out)
        },
        Json::Object(fields) => {
            let mut out = json::no_fields();
            let mut i: usize = 0;
            proof {
                json::lemma_object_shown(*fields);
            }
            assert(out.deep_view() =~= seq![]);
            while i < fields.len()
                invariant
                    i <= fields.len(),
                    *value == Json::Object(*fields),
                    out.deep_view() == settled_fields(fields.deep_view(), i as nat),
                decreases fields.len() - i,
            {
                assert(decreases_to!(*value => value->Object_0));
                assert(decreases_to!(*fields => fields@));
                assert(decreases_to!(fields@ => fields@[i as int]));
                assert(decreases_to!(fields@[i as int] => fields@[i as int].1));
                assert(fields.deep_view()[i as int] == fields@[i as int].deep_view());
                let held = settle(&fields[i].1);
                json::set_field(&mut out, fields[i].0.as_str(), held);
                i += 1;
            }
            Json::object(out)
        },
        _ => value.copy(),
    }
}

/// Settles fields: of a key that is given twice, in its first place, the last
/// value.
pub(crate) fn settle_fields(fields: &Vec<(String, Json)>) -> (out: Vec<(String, Json)>)
    ensures
        out.deep_view() == settled_fields(fields.deep_view(), fields@.len()),
{
    let mut out = json::no_fields();
    let mut i: usize = 0;
    assert(out.deep_view() =~= seq![]);
    while i < fields.len()
        invariant
            i <= fields.len(),
            out.deep_view() == settled_fields(fields.deep_view(), i as nat),
        decreases fields.len() - i,
    {
        assert(fields.deep_view()[i as int] == fields@[i as int].deep_view());
        json::set_field(&mut out, fields[i].0.as_str(), settle(&fields[i].1));
        i += 1;
    }
    out
}

proof fn lemma_set_last(fields: Seq<(Text, JsonV)>, key: Text, value: JsonV)
    requires
        forall|i: int| 0 <= i < fields.len() ==> #[trigger] fields[i].0 != key,
    ensures
        json::with_field(fields, key, value) == fields.push((key, value)),
    decreases fields.len(),
{
    if fields.len() > 0 {
        let rest = fields.skip(1);
        assert forall|i: int| 0 <= i < rest.len() implies #[trigger] rest[i].0 != key by {
            assert(fields[i + 1].0 != key);
        }
        lemma_set_last(rest, key, value);
        assert(fields[0].0 != key);
        assert(seq![fields[0]] + rest.push((key, value)) =~= fields.push((key, value)));
    } else {
        assert(fields.push((key, value)) =~= seq![(key, value)]);
    }
}

proof fn lemma_set_in_place(fields: Seq<(Text, JsonV)>, key: Text, value: JsonV)
    requires
        exists|i: int| 0 <= i < fields.len() && #[trigger] fields[i].0 == key,
    ensures
        json::with_field(fields, key, value).len() == fields.len(),
        forall|i: int|
            0 <= i < fields.len() ==> #[trigger] json::with_field(fields, key, value)[i].0
                == fields[i].0,
    decreases fields.len(),
{
    let after = json::with_field(fields, key, value);
    let rest = fields.skip(1);
    if fields[0].0 == key {
        assert forall|i: int| 0 <= i < fields.len() implies #[trigger] after[i].0 == fields[i].0 by {
            if i > 0 {
                assert(after[i] == rest[i - 1]);
            }
        }
    } else {
        let at = choose|i: int| 0 <= i < fields.len() && #[trigger] fields[i].0 == key;
        assert(rest[at - 1].0 == key);
        lemma_set_in_place(rest, key, value);
        let below = json::with_field(rest, key, value);
        assert forall|i: int| 0 <= i < fields.len() implies #[trigger] after[i].0 == fields[i].0 by {
            if i > 0 {
                assert(after[i] == below[i - 1]);
                assert(below[i - 1].0 == rest[i - 1].0);
            }
        }
    }
}

/// Setting a field gives no key twice that was not.
pub proof fn lemma_set_once(fields: Seq<(Text, JsonV)>, key: Text, value: JsonV, keys: Seq<Text>)
    requires
        all_once(fields, keys),
    ensures
        all_once(json::with_field(fields, key, value), keys),
{
    let after = json::with_field(fields, key, value);
    if exists|i: int| 0 <= i < fields.len() && #[trigger] fields[i].0 == key {
        lemma_set_in_place(fields, key, value);
        assert forall|k: int| 0 <= k < keys.len() implies at_most_once(after, #[trigger] keys[k]) by {
            assert(at_most_once(fields, keys[k]));
            assert forall|i: int, j: int|
                0 <= i < j < after.len() && #[trigger] after[i].0 == keys[k] implies #[trigger] after[j].0
                != keys[k] by {
                assert(fields[i].0 == keys[k]);
                assert(fields[j].0 != keys[k]);
            }
        }
    } else {
        lemma_set_last(fields, key, value);
        assert forall|k: int| 0 <= k < keys.len() implies at_most_once(after, #[trigger] keys[k]) by {
            assert(at_most_once(fields, keys[k]));
            assert forall|i: int, j: int|
                0 <= i < j < after.len() && #[trigger] after[i].0 == keys[k] implies #[trigger] after[j].0
                != keys[k] by {
                assert(fields[i].0 == keys[k]);
                if j < fields.len() {
                    assert(fields[j].0 != keys[k]);
                }
            }
        }
    }
}

proof fn lemma_fields_settled(fields: Seq<(Text, JsonV)>, depth: nat, n: nat)
    requires
        json::plain(JsonV::Object(fields), depth),
        n <= fields.len(),
    ensures
        settled_fields(fields, n) == fields.take(n as int),
    decreases depth, 0nat, n,
{
    if n == 0 {
        assert(fields.take(0) =~= seq![]);
    } else {
        lemma_fields_settled(fields, depth, (n - 1) as nat);
        let (key, value) = fields[n - 1];
        let v = JsonV::Object(fields);
        assert(json::plain(v->Object_0[n - 1].1, (depth - 1) as nat));
        lemma_settled(value, (depth - 1) as nat);
        let front = fields.take(n - 1);
        assert forall|i: int| 0 <= i < front.len() implies #[trigger] front[i].0 != key by {
            assert(fields[i].0 != fields[n - 1].0);
        }
        lemma_set_last(front, key, value);
        assert(front.push(fields[n - 1]) =~= fields.take(n as int));
    }
}

/// A value in which no object has a key twice is settled.
pub proof fn lemma_settled(value: JsonV, depth: nat)
    requires
        json::plain(value, depth),
    ensures
        settled(value) == value,
        value matches JsonV::Object(fields) ==> settled_fields(fields, fields.len()) == fields,
    decreases depth, 1nat, 0nat,
{
    match value {
        JsonV::List(items) => {
            assert forall|i: int| 0 <= i < items.len() implies settled(#[trigger] items[i])
                == items[i] by {
                assert(json::plain(value->List_0[i], (depth - 1) as nat));
                lemma_settled(items[i], (depth - 1) as nat);
            }
            assert(settled(value)->List_0 =~= items);
        },
        JsonV::Object(fields) => {
            lemma_fields_settled(fields, depth, fields.len());
            assert(fields.take(fields.len() as int) =~= fields);
        },
        _ => {},
    }
}

}
