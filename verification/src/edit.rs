//! Changing a rule, in one place, so that nothing can disagree about what a
//! change means.
//!
//! A change is proposed first: parsed, validated, classified, and turned into
//! the document that would be written. Whether it may be written at all is the
//! caller's decision.

use vstd::prelude::*;

use crate::config::{self, Config, ConfigV, Rule, RuleV};
use crate::json::{self, Json, JsonV};
use crate::measure::{self, Real, RealV};
use crate::ratchet::{self, Change, ChangeV};
use crate::table;
use crate::text::{self, Text};

verus! {

/// A change that has been worked out but not yet written.
pub struct Proposal {
    /// Where it would be written.
    pub path: String,
    pub rule: String,
    pub field: String,
    /// The value as it will appear in the file.
    pub value: Json,
    /// Every difference this makes to the effective configuration.
    pub changes: Vec<Change>,
    /// Whether every one of them is a tightening.
    pub tightens: bool,
    /// The whole document that would be written.
    pub document: Json,
}

pub struct ProposalV {
    pub path: Text,
    pub rule: Text,
    pub field: Text,
    pub value: JsonV,
    pub changes: Seq<ChangeV>,
    pub tightens: bool,
    pub document: JsonV,
}

impl DeepView for Proposal {
    type V = ProposalV;

    open spec fn deep_view(&self) -> ProposalV {
        ProposalV {
            path: self.path@,
            rule: self.rule@,
            field: self.field@,
            value: self.value.deep_view(),
            changes: self.changes.deep_view(),
            tightens: self.tightens,
            document: self.document.deep_view(),
        }
    }
}

impl Proposal {
    /// The changes that are not tightenings, which is what a refusal lists.
    pub fn objections(&self) -> (out: Vec<Change>)
        ensures
            out.deep_view() == ratchet::objected(self.changes.deep_view(), self.changes@.len()),
    {
        ratchet::objections(&self.changes)
    }

    /// The file that would be written.
    pub fn contents(&self) -> (s: String)
        ensures
            s@ == json::json_laid_out(json::json_stored(self.document.deep_view())) + "\n"@,
    {
        text::cat(self.document.lay_out().as_str(), "\n")
    }
}

// --- fields ------------------------------------------------------------------

/// The fields every rule has.
pub open spec fn common() -> Seq<Text> {
    seq!["weight"@].push("free"@).push("full"@).push("enabled"@)
}

/// The fields a rule accepts: those every rule has, and its own parameters.
pub open spec fn fields_of(rule: RuleV) -> Seq<Text> {
    common() + Seq::new(rule.params.len(), |i: int| rule.params[i].0)
}

pub fn fields(rule: &Rule) -> (out: Vec<String>)
    ensures
        out.deep_view() == fields_of(rule.deep_view()),
{
    let mut out: Vec<String> = Vec::new();
    assert(out.deep_view() =~= seq![]);
    text::push(&mut out, "weight".to_owned());
    text::push(&mut out, "free".to_owned());
    text::push(&mut out, "full".to_owned());
    text::push(&mut out, "enabled".to_owned());
    crate::visit::append(&mut out, &rule.params.names());
    out
}

pub open spec fn is_common(field: Text) -> bool {
    field == "weight"@ || field == "free"@ || field == "full"@ || field == "enabled"@
}

/// A number as a document holds it: a whole one without a point, and nothing
/// where it is no number that a document can hold.
pub open spec fn number_shown(number: RealV) -> JsonV {
    match text::whole_of(number.text) {
        Some(n) => if n < 0 {
            JsonV::Minus(n as i64)
        } else {
            JsonV::Whole(n as u64)
        },
        None => if measure::is_finite(number.bits) {
            JsonV::Part(number)
        } else {
            JsonV::Null
        },
    }
}

fn show_number(number: &Real) -> (j: Json)
    ensures
        j.deep_view() == number_shown(number.deep_view()),
{
    match text::parse_whole(number.text.as_str()) {
        Some(n) => if n < 0 {
            Json::Minus(n)
        } else {
            Json::Whole(n as u64)
        },
        None => if measure::is_bounded(number.bits) {
            Json::Part(number.copy())
        } else {
            Json::Null
        },
    }
}

/// A value for a field of a rule, or what is wrong with it. `number` is the
/// number that the value spells, where it spells one.
pub open spec fn parsed(
    rule: RuleV,
    field: Text,
    value: Text,
    number: Option<RealV>,
) -> Result<JsonV, Text> {
    if !is_common(field) && table::lookup(rule.params, field) is None {
        Err(
            "rule has no field '"@ + field + "'. It accepts "@ + text::joined(
                fields_of(rule),
                ", "@,
            ) + "."@,
        )
    } else if field == "enabled"@ {
        if value == "true"@ || value == "1"@ || value == "yes"@ {
            Ok(JsonV::Bool(true))
        } else if value == "false"@ || value == "0"@ || value == "no"@ {
            Ok(JsonV::Bool(false))
        } else {
            Err("enabled expects true or false, got '"@ + value + "'"@)
        }
    } else {
        match number {
            Some(n) => Ok(number_shown(n)),
            None => Err(field + " expects a number, got '"@ + value + "'"@),
        }
    }
}

fn is_common_field(field: &str) -> (r: bool)
    ensures
        r == is_common(field@),
{
    text::same(field, "weight") || text::same(field, "free") || text::same(field, "full")
        || text::same(field, "enabled")
}

pub fn parse(rule: &Rule, field: &str, value: &str, number: &Option<Real>) -> (r: Result<
    Json,
    String,
>)
    ensures
        match r {
            Ok(j) => parsed(rule.deep_view(), field@, value@, number.deep_view()) == Ok::<
                JsonV,
                Text,
            >(j.deep_view()),
            Err(e) => parsed(rule.deep_view(), field@, value@, number.deep_view()) == Err::<
                JsonV,
                Text,
            >(e@),
        },
{
    if !is_common_field(field) && !rule.params.contains(field) {
        let accepted = text::join(&fields(rule), ", ");
        return Err(
            text::cat5(
                "rule has no field '",
                field,
                "'. It accepts ",
                accepted.as_str(),
                ".",
            ),
        );
    }
    if text::same(field, "enabled") {
        return if text::same(value, "true") || text::same(value, "1") || text::same(value, "yes") {
            Ok(Json::Bool(true))
        } else if text::same(value, "false") || text::same(value, "0") || text::same(
            value,
            "no",
        ) {
            Ok(Json::Bool(false))
        } else {
            Err(text::cat3("enabled expects true or false, got '", value, "'"))
        };
    }
    match number {
        Some(n) => Ok(show_number(n)),
        None => Err(text::cat4(field, " expects a number, got '", value, "'")),
    }
}

// --- the document ------------------------------------------------------------

/// The shape of a file that is not there yet.
pub open spec fn blank_of() -> JsonV {
    JsonV::Object(
        seq![("version"@, JsonV::Whole(1))].push(("rules"@, JsonV::Object(Seq::empty()))),
    )
}

pub fn blank() -> (j: Json)
    ensures
        j.deep_view() == blank_of(),
{
    let mut fields = json::no_fields();
    crate::json::add(&mut fields, "version", Json::Whole(1));
    crate::json::add(&mut fields, "rules", Json::object(json::no_fields()));
    Json::object(fields)
}

/// What stands under a key, or an empty object.
pub open spec fn at_or_empty(fields: Seq<(Text, JsonV)>, key: Text) -> JsonV {
    match table::lookup(fields, key) {
        Some(v) => v,
        None => JsonV::Object(Seq::empty()),
    }
}

/// A rule's own object with one field set: among its parameters where it is
/// one. Parameters that are no object stay as they are.
pub open spec fn field_put(
    object: Seq<(Text, JsonV)>,
    field: Text,
    value: JsonV,
    is_param: bool,
) -> Seq<(Text, JsonV)> {
    if is_param {
        match at_or_empty(object, "params"@) {
            JsonV::Object(params) => json::with_field(
                object,
                "params"@,
                JsonV::Object(json::with_field(params, field, value)),
            ),
            _ => object,
        }
    } else {
        json::with_field(object, field, value)
    }
}

/// The same with the reason, where there is one.
pub open spec fn reason_put(object: Seq<(Text, JsonV)>, why: Option<Text>) -> Seq<(Text, JsonV)> {
    match why {
        Some(why) => if text::trimmed(why).len() > 0 {
            json::with_field(object, "why"@, JsonV::Str(text::trimmed(why)))
        } else {
            object
        },
        None => object,
    }
}

/// A document with one field of one rule set, and everything else left alone.
/// A document that has no place for it is left as it is.
pub open spec fn document_put(
    document: JsonV,
    rule: Text,
    field: Text,
    value: JsonV,
    is_param: bool,
    why: Option<Text>,
) -> JsonV {
    match document {
        JsonV::Object(fields) => match at_or_empty(fields, "rules"@) {
            JsonV::Object(rules) => match at_or_empty(rules, rule) {
                JsonV::Object(object) => {
                    let object = reason_put(field_put(object, field, value, is_param), why);
                    let rules = json::with_field(rules, rule, JsonV::Object(object));
                    JsonV::Object(json::with_field(fields, "rules"@, JsonV::Object(rules)))
                },
                _ => document,
            },
            _ => document,
        },
        _ => document,
    }
}

/// A copy of the object under a key, or an empty one; nothing where something
/// else stands there.
fn object_at(fields: &Vec<(String, Json)>, key: &str) -> (object: Option<Vec<(String, Json)>>)
    ensures
        match object {
            Some(o) => at_or_empty(fields.deep_view(), key@) == JsonV::Object(o.deep_view()),
            None => !(at_or_empty(fields.deep_view(), key@) is Object),
        },
{
    match json::field(fields, key) {
        None => Some(json::no_fields()),
        Some(v) => match v.as_object() {
            Some(o) => Some(json::copy_fields(o)),
            None => None,
        },
    }
}

pub fn put(
    document: &Json,
    rule: &str,
    field: &str,
    value: &Json,
    is_param: bool,
    why: Option<&str>,
) -> (out: Json)
    ensures
        out.deep_view() == document_put(
            document.deep_view(),
            rule@,
            field@,
            value.deep_view(),
            is_param,
            match why {
                Some(why) => Some(why@),
                None => None,
            },
        ),
{
    let fields = match document.as_object() {
        Some(fields) => fields,
        None => return document.copy(),
    };
    let mut rules = match object_at(fields, "rules") {
        Some(rules) => rules,
        None => return document.copy(),
    };
    let mut object = match object_at(&rules, rule) {
        Some(object) => object,
        None => return document.copy(),
    };
    if is_param {
        if let Some(mut params) = object_at(&object, "params") {
            json::set_field(&mut params, field, value.copy());
            json::set_field(&mut object, "params", Json::object(params));
        }
    } else {
        json::set_field(&mut object, field, value.copy());
    }
    if let Some(why) = why {
        let said = text::trim(why);
        if !text::is_empty(said.as_str()) {
            json::set_field(&mut object, "why", Json::Str(said));
        }
    }
    json::set_field(&mut rules, rule, Json::object(object));
    let mut all = json::copy_fields(fields);
    json::set_field(&mut all, "rules", Json::object(rules));
    Json::object(all)
}

// --- in memory ---------------------------------------------------------------

pub open spec fn number_or(value: JsonV, held: RealV) -> RealV {
    match json::real_of(value) {
        Some(r) => r,
        None => held,
    }
}

/// A rule with one field set, exactly as the document sets it.
pub open spec fn applied(rule: RuleV, field: Text, value: JsonV) -> RuleV {
    if field == "enabled"@ {
        RuleV {
            enabled: match value {
                JsonV::Bool(b) => b,
                _ => rule.enabled,
            },
            ..rule
        }
    } else if field == "weight"@ {
        RuleV { weight: number_or(value, rule.weight), ..rule }
    } else if field == "free"@ {
        RuleV { free: number_or(value, rule.free), ..rule }
    } else if field == "full"@ {
        RuleV { full: number_or(value, rule.full), ..rule }
    } else {
        match json::real_of(value) {
            Some(r) => RuleV { params: table::put(rule.params, field, r), ..rule },
            None => rule,
        }
    }
}

pub fn apply(rule: &mut Rule, field: &str, value: &Json)
    ensures
        final(rule).deep_view() == applied(old(rule).deep_view(), field@, value.deep_view()),
{
    if text::same(field, "enabled") {
        if let Json::Bool(b) = value {
            rule.enabled = *b;
        }
        return;
    }
    let number = match value.as_real() {
        Some(number) => number,
        None => return,
    };
    if text::same(field, "weight") {
        rule.weight = number;
    } else if text::same(field, "free") {
        rule.free = number;
    } else if text::same(field, "full") {
        rule.full = number;
    } else {
        let _ = rule.params.insert(field.to_owned(), number);
    }
}

pub open spec fn config_applied(config: ConfigV, rule: Text, field: Text, value: JsonV) -> ConfigV {
    match table::lookup(config.rules, rule) {
        Some(r) => ConfigV {
            rules: table::put(config.rules, rule, applied(r, field, value)),
            ..config
        },
        None => config,
    }
}

// --- proposing ---------------------------------------------------------------

/// What setting a field would do, or why it cannot be set.
pub open spec fn proposed(
    path: Text,
    before: ConfigV,
    document: JsonV,
    rule: Text,
    field: Text,
    value: Text,
    number: Option<RealV>,
    why: Option<Text>,
) -> Result<ProposalV, Text> {
    match table::lookup(config::default_rules(), rule) {
        None => Err("no rule named '"@ + rule + "'. `cqx config show` lists them."@),
        Some(default) => match parsed(default, field, value, number) {
            Err(e) => Err(e),
            Ok(shown) => {
                let changes = ratchet::differences(
                    before,
                    config_applied(before, rule, field, shown),
                );
                Ok(
                    ProposalV {
                        path,
                        rule,
                        field,
                        value: shown,
                        changes,
                        tightens: ratchet::all_tighten(changes),
                        document: document_put(
                            document,
                            rule,
                            field,
                            shown,
                            table::lookup(default.params, field) is Some,
                            why,
                        ),
                    },
                )
            },
        },
    }
}

/// Works out what setting a field of a rule would do. `document` is the file
/// to change as it is now, and `before` what is currently in force, which need
/// not come from that file alone. Nothing is written.
pub fn propose(
    path: &str,
    before: &Config,
    document: &Json,
    rule: &str,
    field: &str,
    value: &str,
    number: &Option<Real>,
    why: Option<&str>,
) -> (r: Result<Proposal, String>)
    ensures
        ({
            let done = proposed(
                path@,
                before.deep_view(),
                document.deep_view(),
                rule@,
                field@,
                value@,
                number.deep_view(),
                match why {
                    Some(why) => Some(why@),
                    None => None,
                },
            );
            match r {
                Ok(p) => done == Ok::<ProposalV, Text>(p.deep_view()),
                Err(e) => done == Err::<ProposalV, Text>(e@),
            }
        }),
{
    let known = config::defaults();
    let default = match known.get(rule) {
        Some(default) => default,
        None => return Err(
            text::cat3("no rule named '", rule, "'. `cqx config show` lists them."),
        ),
    };
    let shown = match parse(default, field, value, number) {
        Ok(shown) => shown,
        Err(e) => return Err(e),
    };
    let document = put(document, rule, field, &shown, default.params.contains(field), why);
    let mut after = before.copy();
    let moved = match before.rules.get(rule) {
        Some(r) => {
            let mut moved = r.copy();
            apply(&mut moved, field, &shown);
            Some(moved)
        },
        None => None,
    };
    if let Some(moved) = moved {
        let _ = after.rules.insert(rule.to_owned(), moved);
    }
    let changes = ratchet::compare(before, &after);
    let tightens = ratchet::tightens(&changes);
    Ok(
        Proposal {
            path: path.to_owned(),
            rule: rule.to_owned(),
            field: field.to_owned(),
            value: shown,
            changes,
            tightens,
            document,
        },
    )
}

// --- what holds of every proposal --------------------------------------------

/// Nothing else in the file is disturbed: not what stands beside the rules,
/// not another rule, and of the rule itself not another field.
pub proof fn lemma_undisturbed(
    document: JsonV,
    rule: Text,
    field: Text,
    value: JsonV,
    is_param: bool,
    why: Option<Text>,
    key: Text,
)
    ensures
        ({
            let after = document_put(document, rule, field, value, is_param, why);
            let rules = json::field_of(document, "rules"@);
            let rules_after = json::field_of(after, "rules"@);
            &&& key != "rules"@ ==> json::field_of(after, key) == json::field_of(document, key)
            &&& key != rule && rules is Some ==> json::field_of(rules_after->0, key)
                == json::field_of(rules->0, key)
            &&& rules is Some && json::field_of(rules->0, rule) is Some && key != field && key
                != "params"@ && key != "why"@ ==> json::field_of(
                json::field_of(rules_after->0, rule)->0,
                key,
            ) == json::field_of(json::field_of(rules->0, rule)->0, key)
        }),
{
    if let JsonV::Object(fields) = document {
        if let JsonV::Object(rules) = at_or_empty(fields, "rules"@) {
            if let JsonV::Object(object) = at_or_empty(rules, rule) {
                let put = field_put(object, field, value, is_param);
                let told = reason_put(put, why);
                let rules_after = json::with_field(rules, rule, JsonV::Object(told));
                json::lemma_with_field(fields, "rules"@, JsonV::Object(rules_after), key);
                json::lemma_with_field(fields, "rules"@, JsonV::Object(rules_after), "rules"@);
                json::lemma_with_field(rules, rule, JsonV::Object(told), key);
                json::lemma_with_field(rules, rule, JsonV::Object(told), rule);
                json::lemma_with_field(object, field, value, key);
                if let JsonV::Object(params) = at_or_empty(object, "params"@) {
                    json::lemma_with_field(
                        object,
                        "params"@,
                        JsonV::Object(json::with_field(params, field, value)),
                        key,
                    );
                }
                if let Some(why) = why {
                    json::lemma_with_field(put, "why"@, JsonV::Str(text::trimmed(why)), key);
                }
            }
        }
    }
}

/// What is proposed is found in the document where it belongs, where the
/// document has a place for it: in the rule's own object, or among its
/// parameters.
pub proof fn lemma_written(
    document: JsonV,
    rule: Text,
    field: Text,
    value: JsonV,
    is_param: bool,
    why: Option<Text>,
)
    requires
        document is Object,
        at_or_empty(document->Object_0, "rules"@) is Object,
        at_or_empty(at_or_empty(document->Object_0, "rules"@)->Object_0, rule) is Object,
        is_param || is_common(field),
        is_param ==> at_or_empty(
            at_or_empty(at_or_empty(document->Object_0, "rules"@)->Object_0, rule)->Object_0,
            "params"@,
        ) is Object,
    ensures
        ({
            let after = document_put(document, rule, field, value, is_param, why);
            let rules = json::field_of(after, "rules"@);
            let object = json::field_of(rules->0, rule);
            &&& rules is Some
            &&& object is Some
            &&& if is_param {
                let params = json::field_of(object->0, "params"@);
                params is Some && json::field_of(params->0, field) == Some(value)
            } else {
                json::field_of(object->0, field) == Some(value)
            }
        }),
{
    reveal_strlit("why");
    reveal_strlit("params");
    reveal_strlit("weight");
    reveal_strlit("free");
    reveal_strlit("full");
    reveal_strlit("enabled");
    let fields = document->Object_0;
    let rules = at_or_empty(fields, "rules"@)->Object_0;
    let object = at_or_empty(rules, rule)->Object_0;
    let put = field_put(object, field, value, is_param);
    let told = reason_put(put, why);
    let rules_after = json::with_field(rules, rule, JsonV::Object(told));
    let key = if is_param {
        "params"@
    } else {
        field
    };
    assert("why"@.len() == 3 && key.len() != 3);
    json::lemma_with_field(fields, "rules"@, JsonV::Object(rules_after), "rules"@);
    json::lemma_with_field(rules, rule, JsonV::Object(told), rule);
    json::lemma_with_field(object, field, value, field);
    if is_param {
        let params = at_or_empty(object, "params"@)->Object_0;
        let more = json::with_field(params, field, value);
        json::lemma_with_field(params, field, value, field);
        json::lemma_with_field(object, "params"@, JsonV::Object(more), "params"@);
    }
    if let Some(why) = why {
        json::lemma_with_field(put, "why"@, JsonV::Str(text::trimmed(why)), key);
    }
}

// --- what setting a field does -----------------------------------------------

/// Setting a field sets that one, and leaves the others of the rule as they were.
pub proof fn lemma_field_set(rule: RuleV, field: Text, value: JsonV, number: RealV, other: Text)
    requires
        json::real_of(value) == Some(number),
        !(value is Bool),
    ensures
        ({
            let after = applied(rule, field, value);
            &&& after.category == rule.category && after.enabled == rule.enabled
            &&& after.weight == (if field == "weight"@ {
                number
            } else {
                rule.weight
            })
            &&& after.free == (if field == "free"@ {
                number
            } else {
                rule.free
            })
            &&& after.full == (if field == "full"@ {
                number
            } else {
                rule.full
            })
            &&& field == "weight"@ || field == "free"@ || field == "full"@ || field == "enabled"@
                ==> after.params == rule.params
            &&& field != "weight"@ && field != "free"@ && field != "full"@ && field != "enabled"@
                ==> table::lookup(after.params, field) == Some(number) && (other != field
                ==> table::lookup(after.params, other) == table::lookup(rule.params, other))
        }),
{
    reveal_strlit("weight");
    reveal_strlit("free");
    reveal_strlit("full");
    reveal_strlit("enabled");
    assert("free"@[1] == 'r' && "full"@[1] == 'u' && "weight"@.len() == 6);
    assert("enabled"@.len() == 7 && "free"@.len() == 4 && "full"@.len() == 4);
    table::lemma_put_lookup(rule.params, field, number, field);
    table::lemma_put_lookup(rule.params, field, number, other);
}

/// Switching a rule on or off does that and no more.
pub proof fn lemma_switched(rule: RuleV, on: bool)
    ensures
        applied(rule, "enabled"@, JsonV::Bool(on)) == (RuleV { enabled: on, ..rule }),
{
}

/// A word for yes switches a rule on, a word for no switches it off, and any other
/// is refused; a field that the rule has not is refused; a number is taken where
/// one is spelled.
pub proof fn lemma_value_taken(rule: RuleV, field: Text, value: Text, number: Option<RealV>)
    ensures
        field == "enabled"@ && (value == "true"@ || value == "1"@ || value == "yes"@) ==> parsed(
            rule,
            field,
            value,
            number,
        ) == Ok::<JsonV, Text>(JsonV::Bool(true)),
        field == "enabled"@ && (value == "false"@ || value == "0"@ || value == "no"@) ==> parsed(
            rule,
            field,
            value,
            number,
        ) == Ok::<JsonV, Text>(JsonV::Bool(false)),
        field != "weight"@ && field != "free"@ && field != "full"@ && field != "enabled"@
            && table::lookup(rule.params, field) is None ==> parsed(
            rule,
            field,
            value,
            number,
        ) is Err,
        field != "enabled"@ && number is None ==> parsed(rule, field, value, number) is Err,
{
    reveal_strlit("true");
    reveal_strlit("1");
    reveal_strlit("yes");
    reveal_strlit("false");
    reveal_strlit("0");
    reveal_strlit("no");
    assert("1"@[0] == '1' && "0"@[0] == '0' && "true"@.len() == 4 && "false"@.len() == 5);
    assert("yes"@.len() == 3 && "no"@.len() == 2 && "1"@.len() == 1 && "0"@.len() == 1);
}

/// A change is made to the rule that it names, and to no other.
pub proof fn lemma_rule_set(config: ConfigV, rule: Text, field: Text, value: JsonV, other: Text)
    requires
        table::lookup(config.rules, rule) is Some,
    ensures
        ({
            let after = config_applied(config, rule, field, value);
            &&& table::lookup(after.rules, rule) == Some(
                applied(table::lookup(config.rules, rule).unwrap(), field, value),
            )
            &&& other != rule ==> table::lookup(after.rules, other) == table::lookup(
                config.rules,
                other,
            )
            &&& after.min_score == config.min_score && after.exclude == config.exclude
        }),
{
    let set = applied(table::lookup(config.rules, rule).unwrap(), field, value);
    table::lemma_put_lookup(config.rules, rule, set, rule);
    table::lemma_put_lookup(config.rules, rule, set, other);
}

}
