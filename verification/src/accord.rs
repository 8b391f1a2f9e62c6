//! What is written in a configuration file and what takes effect are one.
//!
//! A change to a rule is made twice: in the document that would be written,
//! and in the configuration it is judged by. Reading the document gives the
//! configuration that was judged.

use vstd::prelude::*;

use crate::config::{self, Layered, PatchV, RuleV};
use crate::edit;
use crate::json::{self, JsonV};
use crate::measure::RealV;
use crate::said;
use crate::table;
use crate::text::{self, Text};

verus! {

// --- objects with distinct keys ----------------------------------------------

proof fn lemma_rest_distinct(fields: Seq<(Text, JsonV)>)
    requires
        json::distinct_keys(fields),
        fields.len() > 0,
    ensures
        json::distinct_keys(fields.skip(1)),
        forall|i: int| 0 <= i < fields.skip(1).len() ==> #[trigger] fields.skip(1)[i].0 != fields[0].0,
{
    let rest = fields.skip(1);
    assert forall|i: int, j: int| 0 <= i < j < rest.len() implies #[trigger] rest[i].0
        != #[trigger] rest[j].0 by {
        assert(fields[i + 1].0 != fields[j + 1].0);
    }
    assert forall|i: int| 0 <= i < rest.len() implies #[trigger] rest[i].0 != fields[0].0 by {
        assert(fields[0].0 != fields[i + 1].0);
    }
}

/// Setting a field of an object keeps its keys distinct.
proof fn lemma_set_distinct(fields: Seq<(Text, JsonV)>, key: Text, value: JsonV)
    requires
        json::distinct_keys(fields),
    ensures
        json::distinct_keys(json::with_field(fields, key, value)),
        forall|i: int|
            0 <= i < json::with_field(fields, key, value).len() ==> (#[trigger] json::with_field(
                fields,
                key,
                value,
            )[i] == (key, value) || fields.contains(json::with_field(fields, key, value)[i])),
    decreases fields.len(),
{
    let after = json::with_field(fields, key, value);
    if fields.len() > 0 {
        let rest = fields.skip(1);
        lemma_rest_distinct(fields);
        assert forall|i: int| 0 <= i < rest.len() implies fields.contains(#[trigger] rest[i]) by {
            assert(fields[i + 1] == rest[i]);
        }
        assert(fields.contains(fields[0]));
        if fields[0].0 == key {
            assert forall|i: int, j: int| 0 <= i < j < after.len() implies #[trigger] after[i].0
                != #[trigger] after[j].0 by {
                if i == 0 {
                    assert(rest[j - 1].0 != fields[0].0);
                } else {
                    assert(rest[i - 1].0 != rest[j - 1].0);
                }
            }
            assert forall|i: int| 0 <= i < after.len() implies (#[trigger] after[i] == (key, value)
                || fields.contains(after[i])) by {
                if i > 0 {
                    assert(after[i] == rest[i - 1]);
                }
            }
        } else {
            lemma_set_distinct(rest, key, value);
            let inner = json::with_field(rest, key, value);
            assert forall|i: int| 0 <= i < inner.len() implies #[trigger] inner[i].0
                != fields[0].0 by {
                if inner[i] != (key, value) {
                    let k = choose|k: int| 0 <= k < rest.len() && rest[k] == inner[i];
                    assert(rest[k].0 != fields[0].0);
                }
            }
            assert forall|i: int, j: int| 0 <= i < j < after.len() implies #[trigger] after[i].0
                != #[trigger] after[j].0 by {
                if i == 0 {
                    assert(inner[j - 1].0 != fields[0].0);
                } else {
                    assert(inner[i - 1].0 != inner[j - 1].0);
                }
            }
            assert forall|i: int| 0 <= i < after.len() implies (#[trigger] after[i] == (key, value)
                || fields.contains(after[i])) by {
                if i > 0 {
                    assert(after[i] == inner[i - 1]);
                    if inner[i - 1] != (key, value) {
                        let k = choose|k: int| 0 <= k < rest.len() && rest[k] == inner[i - 1];
                        assert(fields.contains(rest[k]));
                    }
                }
            }
        }
    }
}

/// What the first fields answer, with one more.
proof fn lemma_one_more<V>(fields: Seq<(Text, V)>, n: nat, name: Text)
    requires
        forall|i: int, j: int|
            0 <= i < j < fields.len() ==> #[trigger] fields[i].0 != #[trigger] fields[j].0,
        0 < n <= fields.len(),
    ensures
        table::lookup(fields.take(n as int), name) == (if name == fields[n - 1].0 {
            Some(fields[n - 1].1)
        } else {
            table::lookup(fields.take(n - 1), name)
        }),
{
    let front = fields.take(n - 1);
    assert(fields.take(n as int) =~= front.push(fields[n - 1]));
    table::lemma_lookup_push(front, fields[n - 1], name);
    assert forall|i: int| 0 <= i < front.len() implies #[trigger] front[i].0 != fields[n - 1].0 by {
        assert(fields[i].0 != fields[n - 1].0);
    }
    table::lemma_lookup_missing(front, fields[n - 1].0);
}

// --- parameters --------------------------------------------------------------

/// Whether every field of an object is a number.
spec fn numbers(fields: Seq<(Text, JsonV)>, n: nat) -> bool {
    forall|i: int| 0 <= i < n ==> json::real_of((#[trigger] fields[i]).1) is Some
}

proof fn lemma_params_read(fields: Seq<(Text, JsonV)>, n: nat)
    requires
        n <= fields.len(),
    ensures
        config::params_read(fields, n) is Some <==> numbers(fields, n),
        numbers(fields, n) ==> {
            let given = config::params_read(fields, n)->0;
            &&& given.len() == n
            &&& forall|i: int|
                0 <= i < n ==> #[trigger] given[i] == (
                    fields[i].0,
                    json::real_of(fields[i].1)->0,
                )
        },
    decreases n,
{
    if n > 0 {
        lemma_params_read(fields, (n - 1) as nat);
        if numbers(fields, n) {
            assert(json::real_of(fields[n - 1].1) is Some);
        }
        if config::params_read(fields, n) is Some {
            assert forall|i: int| 0 <= i < n implies json::real_of(
                (#[trigger] fields[i]).1,
            ) is Some by {}
        }
    }
}

/// What parameters laid over others answer.
proof fn lemma_params_set(params: Seq<(Text, RealV)>, fields: Seq<(Text, JsonV)>, n: nat, name: Text)
    requires
        table::ordered(params),
        json::distinct_keys(fields),
        n <= fields.len(),
        numbers(fields, fields.len()),
    ensures
        ({
            let given = config::params_read(fields, fields.len())->0;
            let set = config::params_set(params, given, n);
            &&& table::ordered(set)
            &&& table::lookup(set, name) == (match table::lookup(fields.take(n as int), name) {
                Some(j) => json::real_of(j),
                None => table::lookup(params, name),
            })
        }),
    decreases n,
{
    lemma_params_read(fields, fields.len());
    let given = config::params_read(fields, fields.len())->0;
    if n == 0 {
        assert(fields.take(0) =~= seq![]);
    } else {
        let before = config::params_set(params, given, (n - 1) as nat);
        lemma_params_set(params, fields, (n - 1) as nat, name);
        assert(given[n - 1] == (fields[n - 1].0, json::real_of(fields[n - 1].1)->0));
        table::lemma_put_ordered(before, given[n - 1].0, given[n - 1].1);
        table::lemma_put_lookup(before, given[n - 1].0, given[n - 1].1, name);
        lemma_one_more(fields, n, name);
    }
}

/// Setting one parameter more is setting it last.
proof fn lemma_param_more(
    params: Seq<(Text, RealV)>,
    fields: Seq<(Text, JsonV)>,
    field: Text,
    value: JsonV,
)
    requires
        table::ordered(params),
        json::distinct_keys(fields),
        numbers(fields, fields.len()),
        json::real_of(value) is Some,
    ensures
        ({
            let more = json::with_field(fields, field, value);
            let given = config::params_read(fields, fields.len())->0;
            let all = config::params_read(more, more.len());
            &&& all is Some
            &&& config::params_set(params, all->0, more.len()) == table::put(
                config::params_set(params, given, fields.len()),
                field,
                json::real_of(value)->0,
            )
            &&& given.len() == fields.len()
            &&& all->0.len() == more.len()
        }),
{
    let more = json::with_field(fields, field, value);
    lemma_set_distinct(fields, field, value);
    assert forall|i: int| 0 <= i < more.len() implies json::real_of(
        (#[trigger] more[i]).1,
    ) is Some by {
        if more[i] != (field, value) {
            let k = choose|k: int| 0 <= k < fields.len() && fields[k] == more[i];
            assert(json::real_of(fields[k].1) is Some);
        }
    }
    lemma_params_read(fields, fields.len());
    lemma_params_read(more, more.len());
    let given = config::params_read(fields, fields.len())->0;
    let all = config::params_read(more, more.len())->0;
    let before = config::params_set(params, given, fields.len());
    let after = config::params_set(params, all, more.len());
    let r = json::real_of(value)->0;
    assert(fields.take(fields.len() as int) =~= fields);
    assert(more.take(more.len() as int) =~= more);
    lemma_params_set(params, fields, fields.len(), seq![]);
    lemma_params_set(params, more, more.len(), seq![]);
    table::lemma_put_ordered(before, field, r);
    assert forall|name: Text| #[trigger] table::lookup(after, name) == table::lookup(
        table::put(before, field, r),
        name,
    ) by {
        lemma_params_set(params, fields, fields.len(), name);
        lemma_params_set(params, more, more.len(), name);
        table::lemma_put_lookup(before, field, r, name);
        json::lemma_with_field(fields, field, value, name);
    }
    table::lemma_same_table(after, table::put(before, field, r));
}

// --- one rule ----------------------------------------------------------------

/// Whether a value is of the kind that a field takes.
pub open spec fn suits(field: Text, value: JsonV) -> bool {
    if field == "enabled"@ {
        value is Bool
    } else {
        json::real_of(value) is Some
    }
}

/// Whether a rule's own object has a place for a parameter.
pub open spec fn takes_params(object: Seq<(Text, JsonV)>) -> bool {
    match edit::at_or_empty(object, "params"@) {
        JsonV::Object(params) => json::distinct_keys(params),
        _ => false,
    }
}

proof fn lemma_words()
    ensures
        "weight"@ != "free"@,
        "weight"@ != "full"@,
        "weight"@ != "enabled"@,
        "weight"@ != "category"@,
        "weight"@ != "params"@,
        "weight"@ != "why"@,
        "free"@ != "full"@,
        "free"@ != "enabled"@,
        "free"@ != "category"@,
        "free"@ != "params"@,
        "free"@ != "why"@,
        "full"@ != "enabled"@,
        "full"@ != "category"@,
        "full"@ != "params"@,
        "full"@ != "why"@,
        "enabled"@ != "category"@,
        "enabled"@ != "params"@,
        "enabled"@ != "why"@,
        "category"@ != "params"@,
        "category"@ != "why"@,
        "params"@ != "why"@,
        "rules"@ != "version"@,
        "rules"@ != "min_score"@,
        "rules"@ != "exclude"@,
{
    reveal_strlit("weight");
    reveal_strlit("free");
    reveal_strlit("full");
    reveal_strlit("enabled");
    reveal_strlit("category");
    reveal_strlit("params");
    reveal_strlit("why");
    reveal_strlit("rules");
    reveal_strlit("version");
    reveal_strlit("min_score");
    reveal_strlit("exclude");
    assert("free"@[1] != "full"@[1]);
    assert("weight"@[0] != "params"@[0]);
    assert("weight"@[0] == 'w' && "free"@[0] == 'f' && "params"@[0] == 'p');
    assert("category"@.len() == 8 && "enabled"@.len() == 7 && "weight"@.len() == 6);
    assert("rules"@.len() == 5 && "min_score"@.len() == 9 && "exclude"@.len() == 7);
}

proof fn lemma_rule_agrees(
    rule: RuleV,
    object: Seq<(Text, JsonV)>,
    field: Text,
    value: JsonV,
    is_param: bool,
    why: Option<Text>,
)
    requires
        table::ordered(rule.params),
        config::patch_read(JsonV::Object(object)) is Some,
        is_param != edit::is_common(field),
        is_param ==> takes_params(object),
        suits(field, value),
    ensures
        ({
            let after = edit::reason_put(edit::field_put(object, field, value, is_param), why);
            let patch = config::patch_read(JsonV::Object(object))->0;
            let read = config::patch_read(JsonV::Object(after));
            &&& read is Some
            &&& config::patched(rule, read->0) == edit::applied(
                config::patched(rule, patch),
                field,
                value,
            )
        }),
{
    lemma_words();
    let put = edit::field_put(object, field, value, is_param);
    let after = edit::reason_put(put, why);
    assert forall|key: Text| key != "why"@ implies #[trigger] table::lookup(after, key)
        == table::lookup(put, key) by {
        if let Some(why) = why {
            json::lemma_with_field(put, "why"@, JsonV::Str(text::trimmed(why)), key);
        }
    }
    if let Some(why) = why {
        let said = JsonV::Str(text::trimmed(why));
        if said::all_once(put, config::patch_names()) {
            said::lemma_set_once(put, "why"@, said, config::patch_names());
        }
    }
    if is_param {
        let params = edit::at_or_empty(object, "params"@)->Object_0;
        let more = json::with_field(params, field, value);
        said::lemma_set_once(object, "params"@, JsonV::Object(more), config::patch_names());
        assert forall|key: Text| #[trigger] table::lookup(put, key) == (if key == "params"@ {
            Some(JsonV::Object(more))
        } else {
            table::lookup(object, key)
        }) by {
            json::lemma_with_field(object, "params"@, JsonV::Object(more), key);
        }
        lemma_params_read(params, params.len());
        if table::lookup(object, "params"@) is None {
            assert(params.len() == 0);
            assert(config::params_read(params, 0) == Some(Seq::<(Text, RealV)>::empty()));
        }
        lemma_param_more(rule.params, params, field, value);
        let patch = config::patch_read(JsonV::Object(object))->0;
        let read = config::patch_read(JsonV::Object(after));
        assert(table::lookup(after, "weight"@) == table::lookup(put, "weight"@));
        assert(table::lookup(after, "free"@) == table::lookup(put, "free"@));
        assert(table::lookup(after, "full"@) == table::lookup(put, "full"@));
        assert(table::lookup(after, "enabled"@) == table::lookup(put, "enabled"@));
        assert(table::lookup(after, "category"@) == table::lookup(put, "category"@));
        assert(table::lookup(after, "params"@) == table::lookup(put, "params"@));
        assert(read is Some);
    } else {
        said::lemma_set_once(object, field, value, config::patch_names());
        assert forall|key: Text| #[trigger] table::lookup(put, key) == (if key == field {
            Some(value)
        } else {
            table::lookup(object, key)
        }) by {
            json::lemma_with_field(object, field, value, key);
        }
        assert(table::lookup(after, "weight"@) == table::lookup(put, "weight"@));
        assert(table::lookup(after, "free"@) == table::lookup(put, "free"@));
        assert(table::lookup(after, "full"@) == table::lookup(put, "full"@));
        assert(table::lookup(after, "enabled"@) == table::lookup(put, "enabled"@));
        assert(table::lookup(after, "category"@) == table::lookup(put, "category"@));
        assert(table::lookup(after, "params"@) == table::lookup(put, "params"@));
    }
}

// --- the rules of a file -----------------------------------------------------

spec fn patches(fields: Seq<(Text, JsonV)>, n: nat) -> bool {
    forall|i: int| 0 <= i < n ==> config::patch_read((#[trigger] fields[i]).1) is Some
}

spec fn patch_at(fields: Seq<(Text, JsonV)>, name: Text) -> Option<PatchV> {
    match table::lookup(fields, name) {
        Some(j) => config::patch_read(j),
        None => None,
    }
}

proof fn lemma_patches_read(fields: Seq<(Text, JsonV)>, n: nat, name: Text)
    requires
        n <= fields.len(),
        json::distinct_keys(fields),
    ensures
        config::patches_read(fields, n) is Some <==> patches(fields, n),
        patches(fields, n) ==> {
            let read = config::patches_read(fields, n)->0;
            &&& table::ordered(read)
            &&& table::lookup(read, name) == patch_at(fields.take(n as int), name)
        },
    decreases n,
{
    if n == 0 {
        assert(fields.take(0) =~= seq![]);
    } else {
        lemma_patches_read(fields, (n - 1) as nat, name);
        lemma_one_more(fields, n, name);
        if patches(fields, n) {
            assert(config::patch_read(fields[n - 1].1) is Some);
            let before = config::patches_read(fields, (n - 1) as nat)->0;
            let p = config::patch_read(fields[n - 1].1)->0;
            table::lemma_put_ordered(before, fields[n - 1].0, p);
            table::lemma_put_lookup(before, fields[n - 1].0, p, name);
        }
        if config::patches_read(fields, n) is Some {
            assert forall|i: int| 0 <= i < n implies config::patch_read(
                (#[trigger] fields[i]).1,
            ) is Some by {}
        }
    }
}

/// Whether every rule that a file speaks of is known.
spec fn all_known(rules: Seq<(Text, RuleV)>, given: Seq<(Text, PatchV)>, n: nat) -> bool {
    forall|i: int| 0 <= i < n ==> table::lookup(rules, (#[trigger] given[i]).0) is Some
}

proof fn lemma_with_file(
    start: Layered,
    path: Text,
    given: Seq<(Text, PatchV)>,
    n: nat,
    name: Text,
)
    requires
        table::ordered(start.rules),
        table::ordered(given),
        n <= given.len(),
    ensures
        config::with_file(start, path, given, n) is Ok <==> all_known(start.rules, given, n),
        all_known(start.rules, given, n) ==> {
            let rules = config::with_file(start, path, given, n)->Ok_0.rules;
            &&& table::ordered(rules)
            &&& table::lookup(rules, name) == (match table::lookup(given.take(n as int), name) {
                Some(p) => Some(config::patched(table::lookup(start.rules, name)->0, p)),
                None => table::lookup(start.rules, name),
            })
        },
    decreases n,
{
    if n == 0 {
        assert(given.take(0) =~= seq![]);
    } else {
        let (id, patch) = given[n - 1];
        lemma_with_file(start, path, given, (n - 1) as nat, name);
        lemma_with_file(start, path, given, (n - 1) as nat, id);
        assert forall|i: int, j: int| 0 <= i < j < given.len() implies #[trigger] given[i].0
            != #[trigger] given[j].0 by {
            text::lemma_less_irreflexive(given[i].0);
            assert(text::less(given[i].0, given[j].0));
        }
        lemma_one_more(given, n, name);
        lemma_one_more(given, n, id);
        let front = given.take(n - 1);
        assert forall|i: int| 0 <= i < front.len() implies #[trigger] front[i].0 != id by {
            assert(given[i].0 != given[n - 1].0);
        }
        table::lemma_lookup_missing(front, id);
        if all_known(start.rules, given, (n - 1) as nat) {
            let before = config::with_file(start, path, given, (n - 1) as nat)->Ok_0;
            if let Some(rule) = table::lookup(before.rules, id) {
                table::lemma_put_ordered(before.rules, id, config::patched(rule, patch));
                table::lemma_put_lookup(before.rules, id, config::patched(rule, patch), name);
            }
        }
        if all_known(start.rules, given, n) {
            assert(table::lookup(start.rules, given[n - 1].0) is Some);
        }
        if config::with_file(start, path, given, n) is Ok {
            assert forall|i: int| 0 <= i < n implies table::lookup(
                start.rules,
                (#[trigger] given[i]).0,
            ) is Some by {}
        }
    }
}

/// The rules that a document puts in force over others, where it can be read
/// and every rule it speaks of is known.
pub open spec fn in_force(start: Layered, path: Text, document: JsonV) -> Option<
    Seq<(Text, RuleV)>,
> {
    match config::file_read(document) {
        Some(file) => match config::with_file(start, path, file.rules, file.rules.len()) {
            Ok(here) => Some(here.rules),
            Err(_) => None,
        },
        None => None,
    }
}

/// The object that holds the rules of a document.
pub open spec fn rules_in(document: JsonV) -> Seq<(Text, JsonV)> {
    edit::at_or_empty(document->Object_0, "rules"@)->Object_0
}

/// The object that a document has for one rule.
pub open spec fn rule_in(document: JsonV, rule: Text) -> Seq<(Text, JsonV)> {
    edit::at_or_empty(rules_in(document), rule)->Object_0
}

/// Reading the document that a change would write puts in force what the
/// change was judged by: the same rules, with the one field set. A change is
/// written only where the document, and what it has for the rule, are objects.
pub proof fn lemma_document_agrees(
    start: Layered,
    path: Text,
    document: JsonV,
    rule: Text,
    field: Text,
    value: JsonV,
    is_param: bool,
    why: Option<Text>,
)
    requires
        table::ordered(start.rules),
        table::lookup(start.rules, rule) is Some,
        table::ordered(table::lookup(start.rules, rule)->0.params),
        in_force(start, path, document) is Some,
        document is Object,
        edit::at_or_empty(rules_in(document), rule) is Object,
        json::distinct_keys(rules_in(document)),
        is_param != edit::is_common(field),
        is_param ==> takes_params(rule_in(document, rule)),
        suits(field, value),
    ensures
        ({
            let before = in_force(start, path, document)->0;
            let after = edit::document_put(document, rule, field, value, is_param, why);
            &&& table::lookup(before, rule) is Some
            &&& in_force(start, path, after) == Some(
                table::put(
                    before,
                    rule,
                    edit::applied(table::lookup(before, rule)->0, field, value),
                ),
            )
        }),
{
    lemma_words();
    let fields = document->Object_0;
    let rules = rules_in(document);
    let held = table::lookup(start.rules, rule)->0;
    let file = config::file_read(document)->0;
    let given = file.rules;
    let before = in_force(start, path, document)->0;
    assert(rules.take(rules.len() as int) =~= rules);
    assert(given.take(given.len() as int) =~= given);
    if table::lookup(fields, "rules"@) is None {
        assert(rules.len() == 0);
        assert(given =~= seq![]);
        assert(config::patches_read(rules, 0) == Some(Seq::<(Text, PatchV)>::empty()));
    }
    assert(config::patches_read(rules, rules.len()) == Some(given));
    lemma_patches_read(rules, rules.len(), rule);
    lemma_with_file(start, path, given, given.len(), rule);
    // The rule's own object.
    if let Some(j) = table::lookup(rules, rule) {
        let at = table::lemma_lookup_stands(rules, rule);
        assert(config::patch_read(rules[at].1) is Some);
        assert(j is Object);
    }
    let object = rule_in(document, rule);
    let empty = Seq::<(Text, JsonV)>::empty();
    if table::lookup(rules, rule) is None {
        assert(object =~= empty);
        assert(config::params_read(empty, 0) == Some(Seq::<(Text, RealV)>::empty()));
    }
    assert(config::patch_read(JsonV::Object(object)) is Some);
    let patch = config::patch_read(JsonV::Object(object))->0;
    if table::lookup(rules, rule) is None {
        assert(config::params_set(held.params, patch.params, patch.params.len()) == held.params);
        assert(config::patched(held, patch) == held);
    }
    lemma_rule_agrees(held, object, field, value, is_param, why);
    let told = edit::reason_put(edit::field_put(object, field, value, is_param), why);
    let told_patch = config::patch_read(JsonV::Object(told))->0;
    let moved = edit::applied(table::lookup(before, rule)->0, field, value);
    assert(table::lookup(before, rule) == Some(config::patched(held, patch)));
    assert(config::patched(held, told_patch) == moved);
    // The rules with it.
    let more = json::with_field(rules, rule, JsonV::Object(told));
    lemma_set_distinct(rules, rule, JsonV::Object(told));
    assert forall|i: int| 0 <= i < more.len() implies config::patch_read(
        (#[trigger] more[i]).1,
    ) is Some by {
        if more[i] != (rule, JsonV::Object(told)) {
            let k = choose|k: int| 0 <= k < rules.len() && rules[k] == more[i];
            assert(config::patch_read(rules[k].1) is Some);
        }
    }
    assert(more.take(more.len() as int) =~= more);
    lemma_patches_read(more, more.len(), rule);
    let read = config::patches_read(more, more.len())->0;
    assert(read.take(read.len() as int) =~= read);
    // The file with them.
    let after = edit::document_put(document, rule, field, value, is_param, why);
    assert(after == JsonV::Object(json::with_field(fields, "rules"@, JsonV::Object(more))));
    json::lemma_with_field(fields, "rules"@, JsonV::Object(more), "rules"@);
    json::lemma_with_field(fields, "rules"@, JsonV::Object(more), "version"@);
    json::lemma_with_field(fields, "rules"@, JsonV::Object(more), "min_score"@);
    json::lemma_with_field(fields, "rules"@, JsonV::Object(more), "exclude"@);
    said::lemma_set_once(fields, "rules"@, JsonV::Object(more), config::file_names());
    assert(config::file_read(after) is Some);
    assert(config::file_read(after)->0.rules == read);
    // Every rule in it is known.
    assert forall|i: int| 0 <= i < read.len() implies table::lookup(
        start.rules,
        (#[trigger] read[i]).0,
    ) is Some by {
        let name = read[i].0;
        table::lemma_lookup_found(read, i);
        lemma_patches_read(more, more.len(), name);
        json::lemma_with_field(rules, rule, JsonV::Object(told), name);
        if name != rule {
            lemma_patches_read(rules, rules.len(), name);
            let at = table::lemma_lookup_stands(given, name);
            assert(table::lookup(start.rules, given[at].0) is Some);
        }
    }
    lemma_with_file(start, path, read, read.len(), rule);
    let now = config::with_file(start, path, read, read.len())->Ok_0.rules;
    table::lemma_put_ordered(before, rule, moved);
    assert forall|name: Text| #[trigger] table::lookup(now, name) == table::lookup(
        table::put(before, rule, moved),
        name,
    ) by {
        lemma_with_file(start, path, given, given.len(), name);
        lemma_with_file(start, path, read, read.len(), name);
        lemma_patches_read(rules, rules.len(), name);
        lemma_patches_read(more, more.len(), name);
        json::lemma_with_field(rules, rule, JsonV::Object(told), name);
        table::lemma_put_lookup(before, rule, moved, name);
    }
    table::lemma_same_table(now, table::put(before, rule, moved));
}

}
