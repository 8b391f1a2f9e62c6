//! Whether a tree may merge, and what is said about it.
//!
//! A floor is what a team sets once and mostly passes. A ratchet is what moves
//! a codebase: score the branch, score what it will merge into, and refuse
//! anything that makes a category worse. A run may use either or both.

use vstd::prelude::*;

use crate::json::{self, Json, JsonV};
use crate::measure;
use crate::schema::VERSION;
use crate::score;
use crate::table::{self, Table};
use crate::text::{self, Text};
use crate::vfs;

verus! {

/// What one pass over a tree produced.
pub struct Scanned {
    pub report: Json,
    pub files: usize,
    pub lines: u64,
    /// How long it took, in milliseconds.
    pub ms: u64,
    /// Every path the scan read.
    pub paths: Vec<String>,
}

// --- the report --------------------------------------------------------------

/// The category scores of a report, in the order they are printed.
pub open spec fn scores_of(report: JsonV) -> Seq<(Text, u64)> {
    let fields = json::fields_of(json::field_of(report, "scores"@));
    Seq::new(
        fields.len(),
        |i: int| (fields[i].0, json::whole_or(Some(fields[i].1), 0)),
    )
}

fn read_scores(report: &Json) -> (out: Vec<(String, u64)>)
    ensures
        out.deep_view() == scores_of(report.deep_view()),
{
    let mut out: Vec<(String, u64)> = Vec::new();
    if let Some(scores) = report.get("scores") {
        if let Some(fields) = scores.as_object() {
            let ghost held = fields.deep_view();
            let mut i: usize = 0;
            while i < fields.len()
                invariant
                    i <= fields.len(),
                    held == fields.deep_view(),
                    out.deep_view() == Seq::new(
                        i as nat,
                        |k: int| (held[k].0, json::whole_or(Some(held[k].1), 0)),
                    ),
                decreases fields.len() - i,
            {
                assert(held[i as int] == fields@[i as int].deep_view());
                let value: u64 = match &fields[i].1 {
                    Json::Whole(n) => *n,
                    _ => 0,
                };
                text::push(&mut out, (fields[i].0.clone(), value));
                assert(out.deep_view() =~= Seq::new(
                    (i + 1) as nat,
                    |k: int| (held[k].0, json::whole_or(Some(held[k].1), 0)),
                ));
                i += 1;
            }
        }
    }
    assert(out.deep_view() =~= scores_of(report.deep_view()));
    out
}

impl Scanned {
    /// The category scores, in the order they are printed.
    pub fn scores(&self) -> (out: Vec<(String, u64)>)
        ensures
            out.deep_view() == scores_of(self.report.deep_view()),
    {
        read_scores(&self.report)
    }
}

/// A value that can take a field: an object, or nothing yet.
pub open spec fn is_open(value: JsonV) -> bool {
    value is Object || value is Null
}

/// A value with one field set.
pub open spec fn stamped(value: JsonV, key: Text, held: JsonV) -> JsonV {
    JsonV::Object(json::with_field(json::fields_of(Some(value)), key, held))
}

fn stamp(value: &Json, key: &str, held: Json) -> (j: Json)
    requires
        is_open(value.deep_view()),
    ensures
        j.deep_view() == stamped(value.deep_view(), key@, held.deep_view()),
{
    let mut fields = match value.as_object() {
        Some(fields) => json::copy_fields(fields),
        None => json::no_fields(),
    };
    json::set_field(&mut fields, key, held);
    Json::object(fields)
}

pub open spec fn cost_json(files: usize, lines: u64, ms: u64) -> JsonV {
    JsonV::Object(
        seq![("files"@, JsonV::Whole(files as u64))].push(("lines"@, JsonV::Whole(lines))).push(
            ("ms"@, JsonV::Whole(ms)),
        ).push(("cqx"@, JsonV::Str(VERSION@))),
    )
}

/// A report with what the run itself cost.
pub fn with_cost(report: &Json, files: usize, lines: u64, ms: u64) -> (j: Json)
    requires
        is_open(report.deep_view()),
    ensures
        j.deep_view() == stamped(report.deep_view(), "scan"@, cost_json(files, lines, ms)),
{
    let mut fields = json::no_fields();
    crate::json::add(&mut fields, "files", Json::Whole(files as u64));
    crate::json::add(&mut fields, "lines", Json::Whole(lines));
    crate::json::add(&mut fields, "ms", Json::Whole(ms));
    crate::json::add(&mut fields, "cqx", Json::str(VERSION));
    assert(fields.deep_view() =~= cost_json(files, lines, ms)->Object_0);
    stamp(report, "scan", Json::object(fields))
}

/// A report whose configuration asks for a floor. One without a configuration
/// has nowhere to put it.
pub open spec fn floored(report: JsonV, min: u64) -> JsonV {
    match json::field_of(report, "config"@) {
        Some(config) => stamped(
            report,
            "config"@,
            stamped(config, "min_score"@, JsonV::Whole(min)),
        ),
        None => report,
    }
}

pub fn with_floor(report: &Json, min: u64) -> (j: Json)
    requires
        match json::field_of(report.deep_view(), "config"@) {
            Some(config) => is_open(config),
            None => true,
        },
    ensures
        j.deep_view() == floored(report.deep_view(), min),
{
    match report.get("config") {
        Some(config) => {
            let config = stamp(config, "min_score", Json::Whole(min));
            stamp(report, "config", config)
        },
        None => report.copy(),
    }
}

pub open spec fn against_json(reference: Text, before: JsonV, lines: u64) -> JsonV {
    let was = scores_of(before);
    JsonV::Object(
        seq![("ref"@, JsonV::Str(reference))].push(
            (
                "scores"@,
                JsonV::Object(Seq::new(was.len(), |i: int| (was[i].0, JsonV::Whole(was[i].1)))),
            ),
        ).push(("lines"@, JsonV::Whole(lines))),
    )
}

/// A report with what it was compared against. The movement is the point of a
/// ratchet.
pub fn with_against(report: &Json, reference: &str, before: &Scanned) -> (j: Json)
    requires
        is_open(report.deep_view()),
    ensures
        j.deep_view() == stamped(
            report.deep_view(),
            "against"@,
            against_json(reference@, before.report.deep_view(), before.lines),
        ),
{
    let was = before.scores();
    let ghost held = was.deep_view();
    let mut scores = json::no_fields();
    let mut i: usize = 0;
    while i < was.len()
        invariant
            i <= was.len(),
            held == was.deep_view(),
            scores.deep_view() == Seq::new(i as nat, |k: int| (held[k].0, JsonV::Whole(held[k].1))),
        decreases was.len() - i,
    {
        assert(held[i as int] == was@[i as int].deep_view());
        crate::json::add(&mut scores, was[i].0.as_str(), Json::Whole(was[i].1));
        assert(scores.deep_view() =~= Seq::new(
            (i + 1) as nat,
            |k: int| (held[k].0, JsonV::Whole(held[k].1)),
        ));
        i += 1;
    }
    let mut fields = json::no_fields();
    crate::json::add(&mut fields, "ref", Json::str(reference));
    crate::json::add(&mut fields, "scores", Json::object(scores));
    crate::json::add(&mut fields, "lines", Json::Whole(before.lines));
    assert(fields.deep_view() =~= against_json(
        reference@,
        before.report.deep_view(),
        before.lines,
    )->Object_0);
    stamp(report, "against", Json::object(fields))
}

// --- the line of code beside a finding ---------------------------------------

pub open spec fn quoted_finding(finding: JsonV, sources: Seq<(Text, Text)>) -> JsonV {
    let file = json::str_or(json::field_of(finding, "file"@), seq![]);
    let line = json::whole_or(json::field_of(finding, "line"@), 0);
    match table::lookup(sources, file) {
        Some(source) => {
            let lines = text::lines_of(source);
            if finding is Object && 1 <= line <= lines.len() {
                stamped(finding, "text"@, JsonV::Str(lines[line - 1]))
            } else {
                finding
            }
        },
        None => finding,
    }
}

fn quote_finding(finding: &Json, sources: &Table<String>) -> (j: Json)
    ensures
        j.deep_view() == quoted_finding(finding.deep_view(), sources.deep_view()),
{
    let none = text::empty();
    let file = finding.text_at("file", none.as_str());
    let line: u64 = finding.whole_at("line", 0);
    if let Some(source) = sources.get(file.as_str()) {
        let lines = text::lines(source.as_str());
        if finding.as_object().is_some() && line >= 1 && line <= lines.len() as u64 {
            let at: usize = (line - 1) as usize;
            assert(lines.deep_view()[at as int] == lines@[at as int]@);
            return stamp(finding, "text", Json::str(lines[at].as_str()));
        }
    }
    finding.copy()
}

pub open spec fn quoted_rule(rule: JsonV, sources: Seq<(Text, Text)>) -> JsonV {
    match (rule, json::field_of(rule, "findings"@)) {
        (JsonV::Object(_), Some(JsonV::List(findings))) => stamped(
            rule,
            "findings"@,
            JsonV::List(
                Seq::new(findings.len(), |i: int| quoted_finding(findings[i], sources)),
            ),
        ),
        _ => rule,
    }
}

fn quote_rule(rule: &Json, sources: &Table<String>) -> (j: Json)
    ensures
        j.deep_view() == quoted_rule(rule.deep_view(), sources.deep_view()),
{
    if rule.as_object().is_some() {
        if let Some(held) = rule.get("findings") {
            if let Some(findings) = held.as_list() {
                let mut out: Vec<Json> = Vec::new();
                let mut i: usize = 0;
                while i < findings.len()
                    invariant
                        i <= findings.len(),
                        out.deep_view() == Seq::new(
                            i as nat,
                            |k: int|
                                quoted_finding(findings.deep_view()[k], sources.deep_view()),
                        ),
                    decreases findings.len() - i,
                {
                    assert(findings.deep_view()[i as int] == findings@[i as int].deep_view());
                    text::push(&mut out, quote_finding(&findings[i], sources));
                    assert(out.deep_view() =~= Seq::new(
                        (i + 1) as nat,
                        |k: int| quoted_finding(findings.deep_view()[k], sources.deep_view()),
                    ));
                    i += 1;
                }
                return stamp(rule, "findings", Json::list(out));
            }
        }
    }
    rule.copy()
}

pub open spec fn quoted(report: JsonV, sources: Seq<(Text, Text)>) -> JsonV {
    match (report, json::field_of(report, "rules"@)) {
        (JsonV::Object(_), Some(JsonV::List(rules))) => stamped(
            report,
            "rules"@,
            JsonV::List(Seq::new(rules.len(), |i: int| quoted_rule(rules[i], sources))),
        ),
        _ => report,
    }
}

/// A report with the line of code beside each finding, out of the sources that
/// are in hand. A finding whose file or line is not among them is left as it
/// is.
pub fn quote(report: &Json, sources: &Table<String>) -> (j: Json)
    ensures
        j.deep_view() == quoted(report.deep_view(), sources.deep_view()),
{
    if report.as_object().is_some() {
        if let Some(held) = report.get("rules") {
            if let Some(rules) = held.as_list() {
                let mut out: Vec<Json> = Vec::new();
                let mut i: usize = 0;
                while i < rules.len()
                    invariant
                        i <= rules.len(),
                        out.deep_view() == Seq::new(
                            i as nat,
                            |k: int| quoted_rule(rules.deep_view()[k], sources.deep_view()),
                        ),
                    decreases rules.len() - i,
                {
                    assert(rules.deep_view()[i as int] == rules@[i as int].deep_view());
                    text::push(&mut out, quote_rule(&rules[i], sources));
                    assert(out.deep_view() =~= Seq::new(
                        (i + 1) as nat,
                        |k: int| quoted_rule(rules.deep_view()[k], sources.deep_view()),
                    ));
                    i += 1;
                }
                return stamp(report, "rules", Json::list(out));
            }
        }
    }
    report.copy()
}

// --- what may merge -----------------------------------------------------------

/// What something is compared against: the name of a ref, and its scan.
pub struct Against<'a> {
    pub reference: &'a str,
    pub scanned: &'a Scanned,
}

/// Scores by category.
pub open spec fn by_category(scores: Seq<(Text, u64)>, n: nat) -> Seq<(Text, u64)>
    decreases n,
{
    if n == 0 {
        seq![]
    } else {
        table::put(by_category(scores, (n - 1) as nat), scores[n - 1].0, scores[n - 1].1)
    }
}

pub open spec fn were(against: Option<Against>) -> Seq<(Text, u64)> {
    match against {
        Some(a) => {
            let scores = scores_of(a.scanned.report.deep_view());
            by_category(scores, scores.len())
        },
        None => seq![],
    }
}

pub(crate) fn was_by_category(against: &Option<Against>) -> (was: Table<u64>)
    ensures
        was.deep_view() == were(*against),
{
    let mut was: Table<u64> = Table::new();
    if let Some(a) = against {
        let scores = a.scanned.scores();
        let mut i: usize = 0;
        while i < scores.len()
            invariant
                i <= scores.len(),
                was.deep_view() == by_category(scores.deep_view(), i as nat),
            decreases scores.len() - i,
        {
            assert(scores.deep_view()[i as int] == scores@[i as int].deep_view());
            let _ = was.insert(scores[i].0.clone(), scores[i].1);
            i += 1;
        }
    }
    was
}

/// What is refused of the first `n` scores because a category was better.
pub open spec fn worse(
    scores: Seq<(Text, u64)>,
    was: Seq<(Text, u64)>,
    reference: Text,
    n: nat,
) -> Seq<Text>
    decreases n,
{
    if n == 0 {
        seq![]
    } else {
        let before = worse(scores, was, reference, (n - 1) as nat);
        let (category, now) = scores[n - 1];
        match table::lookup(was, category) {
            Some(then) => if now < then {
                before.push(
                    category + " is "@ + text::decimal_of(now as nat) + ", down from "@
                        + text::decimal_of(then as nat) + " on "@ + reference,
                )
            } else {
                before
            },
            None => before,
        }
    }
}

/// What is refused of the first `n` scores because they are under the floor.
pub open spec fn low(out: Seq<Text>, scores: Seq<(Text, u64)>, min: u64, n: nat) -> Seq<Text>
    decreases n,
{
    if n == 0 {
        out
    } else {
        let before = low(out, scores, min, (n - 1) as nat);
        let (category, value) = scores[n - 1];
        if value < min {
            before.push(
                category + " scored "@ + text::decimal_of(value as nat) + ", below the required "@
                    + text::decimal_of(min as nat),
            )
        } else {
            before
        }
    }
}

/// The floor a report asks for.
pub open spec fn floor_of(report: JsonV) -> Option<u64> {
    match json::field_of(report, "config"@) {
        Some(config) => match json::field_of(config, "min_score"@) {
            Some(JsonV::Whole(min)) => Some(min),
            _ => None,
        },
        None => None,
    }
}

fn read_floor(report: &Json) -> (min: Option<u64>)
    ensures
        min == floor_of(report.deep_view()),
{
    match report.get("config") {
        Some(config) => match config.get("min_score") {
            Some(Json::Whole(min)) => Some(*min),
            _ => None,
        },
        None => None,
    }
}

/// Why a tree may not merge. It may when there is nothing to say.
pub open spec fn refusals(report: JsonV, against: Option<Against>) -> Seq<Text> {
    let scores = scores_of(report);
    let fallen = match against {
        Some(a) => worse(scores, were(against), a.reference@, scores.len()),
        None => seq![],
    };
    match floor_of(report) {
        Some(min) => low(fallen, scores, min, scores.len()),
        None => fallen,
    }
}

pub fn gate(here: &Scanned, against: &Option<Against>) -> (out: Vec<String>)
    ensures
        out.deep_view() == refusals(here.report.deep_view(), *against),
{
    let scores = here.scores();
    let mut out: Vec<String> = Vec::new();
    assert(out.deep_view() =~= seq![]);
    if let Some(a) = against {
        let was = was_by_category(against);
        let mut i: usize = 0;
        while i < scores.len()
            invariant
                i <= scores.len(),
                out.deep_view() == worse(
                    scores.deep_view(),
                    was.deep_view(),
                    a.reference@,
                    i as nat,
                ),
            decreases scores.len() - i,
        {
            assert(scores.deep_view()[i as int] == scores@[i as int].deep_view());
            let now: u64 = scores[i].1;
            if let Some(then) = was.get(scores[i].0.as_str()) {
                if now < *then {
                    let mut s = text::cat(scores[i].0.as_str(), " is ");
                    text::extend(&mut s, text::decimal(now).as_str());
                    text::extend(&mut s, ", down from ");
                    text::extend(&mut s, text::decimal(*then).as_str());
                    text::extend(&mut s, " on ");
                    text::extend(&mut s, a.reference);
                    text::push(&mut out, s);
                }
            }
            i += 1;
        }
    }
    if let Some(min) = read_floor(&here.report) {
        let ghost start = out.deep_view();
        let mut j: usize = 0;
        while j < scores.len()
            invariant
                j <= scores.len(),
                out.deep_view() == low(start, scores.deep_view(), min, j as nat),
            decreases scores.len() - j,
        {
            assert(scores.deep_view()[j as int] == scores@[j as int].deep_view());
            let value: u64 = scores[j].1;
            if value < min {
                let mut s = text::cat(scores[j].0.as_str(), " scored ");
                text::extend(&mut s, text::decimal(value).as_str());
                text::extend(&mut s, ", below the required ");
                text::extend(&mut s, text::decimal(min).as_str());
                text::push(&mut out, s);
            }
            j += 1;
        }
    }
    out
}

/// No category is worse than it was.
pub open spec fn holds_up(scores: Seq<(Text, u64)>, was: Seq<(Text, u64)>, n: nat) -> bool {
    forall|i: int|
        0 <= i < n ==> match table::lookup(was, (#[trigger] scores[i]).0) {
            Some(then) => then <= scores[i].1,
            None => true,
        }
}

proof fn lemma_worse(scores: Seq<(Text, u64)>, was: Seq<(Text, u64)>, reference: Text, n: nat)
    requires
        n <= scores.len(),
    ensures
        worse(scores, was, reference, n).len() == 0 <==> holds_up(scores, was, n),
    decreases n,
{
    if n > 0 {
        lemma_worse(scores, was, reference, (n - 1) as nat);
    }
}

proof fn lemma_low(out: Seq<Text>, scores: Seq<(Text, u64)>, min: u64, n: nat)
    requires
        n <= scores.len(),
    ensures
        low(out, scores, min, n).len() == 0 <==> out.len() == 0 && forall|i: int|
            0 <= i < n ==> (#[trigger] scores[i]).1 >= min,
    decreases n,
{
    if n > 0 {
        lemma_low(out, scores, min, (n - 1) as nat);
    }
}

/// A tree may merge exactly when no category is worse than on the ref it is
/// compared against, and none is under the floor.
pub proof fn lemma_gate(report: JsonV, against: Option<Against>)
    ensures
        refusals(report, against).len() == 0 <==> (against is Some ==> holds_up(
            scores_of(report),
            were(against),
            scores_of(report).len(),
        )) && (match floor_of(report) {
            Some(min) => forall|i: int|
                0 <= i < scores_of(report).len() ==> (#[trigger] scores_of(report)[i]).1 >= min,
            None => true,
        }),
{
    let scores = scores_of(report);
    let fallen = match against {
        Some(a) => worse(scores, were(against), a.reference@, scores.len()),
        None => seq![],
    };
    if let Some(a) = against {
        lemma_worse(scores, were(against), a.reference@, scores.len());
    }
    if let Some(min) = floor_of(report) {
        lemma_low(fallen, scores, min, scores.len());
    }
}

/// The floor that is asked for is the floor that is held to.
pub proof fn lemma_floor_set(report: JsonV, min: u64)
    requires
        json::field_of(report, "config"@) is Some,
    ensures
        floor_of(floored(report, min)) == Some(min),
        scores_of(floored(report, min)) == scores_of(report),
{
    let config = json::field_of(report, "config"@)->Some_0;
    let set = stamped(config, "min_score"@, JsonV::Whole(min));
    let fields = json::fields_of(Some(report));
    json::lemma_with_field(fields, "config"@, set, "config"@);
    reveal_strlit("config");
    reveal_strlit("scores");
    json::lemma_with_field(fields, "config"@, set, "scores"@);
    json::lemma_with_field(
        json::fields_of(Some(config)),
        "min_score"@,
        JsonV::Whole(min),
        "min_score"@,
    );
    assert("config"@ != "scores"@) by {
        assert("config"@[0] == 'c' && "scores"@[0] == 's');
    }
}

// --- what it cost ------------------------------------------------------------

/// What a rule deducted, as a number's bits.
pub open spec fn cost_of(rule: JsonV) -> u64 {
    match json::field_of(rule, "deducted"@) {
        Some(v) => match json::real_of(v) {
            Some(r) => r.bits,
            None => 0,
        },
        None => 0,
    }
}

pub(crate) fn cost(rule: &Json) -> (bits: u64)
    ensures
        bits == cost_of(rule.deep_view()),
{
    match rule.get("deducted") {
        Some(v) => match v.as_real() {
            Some(r) => r.bits,
            None => 0,
        },
        None => 0,
    }
}

pub open spec fn rules_of(report: JsonV) -> Seq<JsonV> {
    json::items_of(json::field_of(report, "rules"@))
}

/// Positions of rules, worst first, with one more among them: after those that
/// cost as much or more.
pub open spec fn ranked_with(order: Seq<usize>, rules: Seq<JsonV>, at: usize) -> Seq<usize>
    decreases order.len(),
{
    if order.len() == 0 || measure::order_of(cost_of(rules[at as int])) <= measure::order_of(
        cost_of(rules[order.last() as int]),
    ) {
        order.push(at)
    } else {
        ranked_with(order.drop_last(), rules, at).push(order.last())
    }
}

/// The first `n` rules that cost something, worst first.
pub open spec fn costly(rules: Seq<JsonV>, n: nat) -> Seq<usize>
    decreases n,
{
    if n == 0 {
        seq![]
    } else {
        let before = costly(rules, (n - 1) as nat);
        if measure::below(0, cost_of(rules[n - 1])) {
            ranked_with(before, rules, (n - 1) as usize)
        } else {
            before
        }
    }
}

fn rank(order: &mut Vec<usize>, rules: &Vec<Json>, at: usize)
    requires
        at < rules@.len(),
        forall|i: int| 0 <= i < old(order)@.len() ==> #[trigger] old(order)@[i] < rules@.len(),
    ensures
        final(order)@ == ranked_with(old(order)@, rules.deep_view(), at),
        forall|i: int| 0 <= i < final(order)@.len() ==> #[trigger] final(order)@[i] < rules@.len(),
{
    let ghost before = order@;
    let bits: u64 = cost(&rules[at]);
    assert(rules.deep_view()[at as int] == rules@[at as int].deep_view());
    let mut to: usize = order.len();
    assert(before.take(to as int) =~= before);
    assert(ranked_with(before, rules.deep_view(), at) =~= ranked_with(
        before.take(to as int),
        rules.deep_view(),
        at,
    ) + before.skip(to as int));
    while to > 0 && measure::is_before(cost(&rules[order[to - 1]]), bits)
        invariant
            to <= order.len(),
            before == order@,
            *order == *old(order),
            at < rules@.len(),
            bits == cost_of(rules.deep_view()[at as int]),
            forall|i: int| 0 <= i < order@.len() ==> #[trigger] order@[i] < rules@.len(),
            ranked_with(before, rules.deep_view(), at) == ranked_with(
                before.take(to as int),
                rules.deep_view(),
                at,
            ) + before.skip(to as int),
        decreases to,
    {
        let ghost head = before.take(to as int);
        assert(head.last() == order@[to - 1]);
        assert(rules.deep_view()[order@[to - 1] as int] == rules@[order@[to
            - 1] as int].deep_view());
        assert(head.drop_last() =~= before.take(to - 1));
        assert(ranked_with(head, rules.deep_view(), at) + before.skip(to as int) =~= ranked_with(
            before.take(to - 1),
            rules.deep_view(),
            at,
        ) + before.skip(to - 1));
        to -= 1;
    }
    proof {
        let head = before.take(to as int);
        if to > 0 {
            assert(head.last() == order@[to - 1]);
            assert(rules.deep_view()[order@[to - 1] as int] == rules@[order@[to
                - 1] as int].deep_view());
        }
        assert(ranked_with(head, rules.deep_view(), at) == head.push(at));
    }
    order.insert(to, at);
    assert(order@ =~= before.take(to as int).push(at) + before.skip(to as int));
    assert forall|i: int| 0 <= i < order@.len() implies #[trigger] order@[i] < rules@.len() by {
        if i < to {
            assert(order@[i] == before[i]);
        } else if i > to {
            assert(order@[i] == before[i - 1]);
        }
    }
}

pub(crate) fn rank_costly(rules: &Vec<Json>) -> (order: Vec<usize>)
    ensures
        order@ == costly(rules.deep_view(), rules@.len()),
        forall|i: int| 0 <= i < order@.len() ==> #[trigger] order@[i] < rules@.len(),
{
    let mut order: Vec<usize> = Vec::new();
    let mut i: usize = 0;
    while i < rules.len()
        invariant
            i <= rules.len(),
            order@ == costly(rules.deep_view(), i as nat),
            forall|k: int| 0 <= k < order@.len() ==> #[trigger] order@[k] < rules@.len(),
        decreases rules.len() - i,
    {
        assert(rules.deep_view()[i as int] == rules@[i as int].deep_view());
        if measure::is_below(0, cost(&rules[i])) {
            rank(&mut order, rules, i);
        }
        i += 1;
    }
    order
}

/// One rule costs no less than another.
pub open spec fn costs_more(rules: Seq<JsonV>, a: usize, b: usize) -> bool {
    measure::order_of(cost_of(rules[b as int])) <= measure::order_of(cost_of(rules[a as int]))
}

pub open spec fn worst_first(order: Seq<usize>, rules: Seq<JsonV>) -> bool {
    forall|i: int, j: int|
        0 <= i < j < order.len() ==> costs_more(rules, #[trigger] order[i], #[trigger] order[j])
}

proof fn lemma_ranked_with(order: Seq<usize>, rules: Seq<JsonV>, at: usize)
    requires
        worst_first(order, rules),
    ensures
        worst_first(ranked_with(order, rules, at), rules),
        ranked_with(order, rules, at).to_multiset() == order.to_multiset().insert(at),
    decreases order.len(),
{
    broadcast use vstd::seq_lib::group_to_multiset_ensures;

    let after = ranked_with(order, rules, at);
    if order.len() == 0 || costs_more(rules, order.last(), at) {
        assert forall|i: int, j: int| 0 <= i < j < after.len() implies costs_more(
            rules,
            #[trigger] after[i],
            #[trigger] after[j],
        ) by {
            if j == order.len() && i < order.len() - 1 {
                assert(costs_more(rules, order[i], order[order.len() - 1]));
            }
        }
    } else {
        let rest = order.drop_last();
        let inner = ranked_with(rest, rules, at);
        lemma_ranked_with(rest, rules, at);
        assert(order =~= rest.push(order.last()));
        assert(after.to_multiset() =~= order.to_multiset().insert(at));
        assert forall|i: int, j: int| 0 <= i < j < after.len() implies costs_more(
            rules,
            #[trigger] after[i],
            #[trigger] after[j],
        ) by {
            if j == inner.len() {
                assert(inner.contains(inner[i]));
                assert(inner.to_multiset().count(inner[i]) > 0);
                if inner[i] != at {
                    assert(rest.to_multiset().count(inner[i]) > 0);
                    assert(rest.contains(inner[i]));
                    let k = choose|k: int| 0 <= k < rest.len() && rest[k] == inner[i];
                    assert(costs_more(rules, order[k], order[order.len() - 1]));
                }
            } else {
                assert(costs_more(rules, inner[i], inner[j]));
            }
        }
    }
}

proof fn lemma_costly_from(rules: Seq<JsonV>, n: nat)
    requires
        n <= rules.len() <= usize::MAX,
    ensures
        worst_first(costly(rules, n), rules),
        forall|i: usize|
            #[trigger] costly(rules, n).to_multiset().count(i) == if i < n && measure::below(
                0,
                cost_of(rules[i as int]),
            ) {
                1nat
            } else {
                0nat
            },
    decreases n,
{
    broadcast use vstd::seq_lib::group_to_multiset_ensures;

    if n > 0 {
        lemma_costly_from(rules, (n - 1) as nat);
        lemma_ranked_with(costly(rules, (n - 1) as nat), rules, (n - 1) as usize);
    }
}

/// The rules that cost something come worst first, each of them once and no
/// other.
pub proof fn lemma_costly(rules: Seq<JsonV>)
    requires
        rules.len() <= usize::MAX,
    ensures
        worst_first(costly(rules, rules.len()), rules),
        forall|i: usize|
            #[trigger] costly(rules, rules.len()).to_multiset().count(i) == if i < rules.len()
                && measure::below(0, cost_of(rules[i as int])) {
                1nat
            } else {
                0nat
            },
{
    lemma_costly_from(rules, rules.len());
}

/// The id of a rule that a reader will see and look up.
pub open spec fn rule_id(rule: JsonV, other: Text) -> Text {
    json::str_or(json::field_of(rule, "language"@), "rust"@) + "/"@ + json::str_or(
        json::field_of(rule, "rule"@),
        other,
    )
}

pub(crate) fn id_of(rule: &Json, other: &str) -> (s: String)
    ensures
        s@ == rule_id(rule.deep_view(), other@),
{
    text::cat3(
        rule.text_at("language", "rust").as_str(),
        "/",
        rule.text_at("rule", other).as_str(),
    )
}

// --- what a person reads -----------------------------------------------------

/// How many findings a terminal shows before it stops being a terminal.
pub const SHOWN: usize = 8;

/// A number less another, or none at all.
pub open spec fn less_by(n: u64, part: nat) -> u64 {
    if part < n {
        (n - part) as u64
    } else {
        0
    }
}

/// The leading space of a text.
pub open spec fn indent(s: Text) -> Text {
    s.take(s.len() - text::trimmed_start(s).len())
}

/// A column of a line, once the line is shown without its leading space.
fn shift(column: u64, line: &str) -> (n: u64)
    ensures
        n == less_by(column, vfs::bytes_in(indent(line@))),
{
    let code = text::trim_start(line);
    let chars = text::to_chars(line);
    let rest: usize = text::to_chars(code.as_str()).len();
    proof {
        text::lemma_trimmed_start(line@);
    }
    let end: usize = chars.len() - rest;
    let ghost lead = indent(line@);
    let mut n: u64 = column;
    let mut i: usize = 0;
    assert(lead.take(0) =~= seq![]);
    while i < end
        invariant
            i <= end <= chars.len(),
            end == lead.len(),
            chars@ == line@,
            lead == line@.take(end as int),
            n == less_by(column, vfs::bytes_in(lead.take(i as int))),
        decreases end - i,
    {
        let width: u64 = vfs::char_width(chars[i]) as u64;
        let ghost next = lead.take(i + 1);
        assert(next.drop_last() =~= lead.take(i as int));
        assert(next.last() == chars@[i as int]);
        n = if n > width {
            n - width
        } else {
            0
        };
        i += 1;
    }
    assert(lead.take(end as int) =~= lead);
    n
}

/// The two columns a finding marks, where it marks any.
pub open spec fn marked(finding: JsonV) -> Option<(u64, u64)> {
    match json::field_of(finding, "col"@) {
        Some(JsonV::List(col)) => {
            let from = if col.len() > 0 {
                json::whole_or(Some(col[0]), 0)
            } else {
                0
            };
            let to = if col.len() > 1 {
                json::whole_or(Some(col[1]), 0)
            } else {
                0
            };
            if to > from {
                Some((from, to))
            } else {
                None
            }
        },
        _ => None,
    }
}

fn whole_in(list: &Vec<Json>, i: usize) -> (n: u64)
    ensures
        n == if i < list@.len() {
            json::whole_or(Some(list.deep_view()[i as int]), 0)
        } else {
            0
        },
{
    if i < list.len() {
        assert(list.deep_view()[i as int] == list@[i as int].deep_view());
        match &list[i] {
            Json::Whole(n) => *n,
            _ => 0,
        }
    } else {
        0
    }
}

pub(crate) fn read_marks(finding: &Json) -> (marks: Option<(u64, u64)>)
    ensures
        marks == marked(finding.deep_view()),
{
    if let Some(held) = finding.get("col") {
        if let Some(col) = held.as_list() {
            let from: u64 = whole_in(col, 0);
            let to: u64 = whole_in(col, 1);
            if to > from {
                return Some((from, to));
            }
        }
    }
    None
}

pub open spec fn place_line(finding: JsonV) -> Text {
    let file = json::str_or(json::field_of(finding, "file"@), seq![]);
    let line = json::whole_or(json::field_of(finding, "line"@), 0);
    if line > 0 {
        "  "@ + file + ":"@ + text::decimal_of(line as nat)
    } else {
        "  "@ + file
    }
}

pub open spec fn mark_line(line: Text, from: u64, to: u64) -> Text {
    let lead = vfs::bytes_in(indent(line));
    let from = less_by(from, lead);
    let to = less_by(to, lead);
    "      "@ + text::repeated(' ', from as nat) + text::repeated('^', (to - from) as nat)
}

/// The line of code of a finding, without the indentation it happens to sit at,
/// and below it what is marked.
pub open spec fn code_lines(out: Seq<Text>, finding: JsonV) -> Seq<Text> {
    let line = json::str_or(json::field_of(finding, "text"@), seq![]);
    if line.len() == 0 {
        out
    } else {
        let shown = out.push("      "@ + text::trimmed_start(line));
        match marked(finding) {
            Some((from, to)) => shown.push(mark_line(line, from, to)),
            None => shown,
        }
    }
}

/// A finding in the shape a compiler gives an error: where, the code, the part
/// that is wrong, and what is wrong with it.
pub open spec fn finding_lines(out: Seq<Text>, finding: JsonV, id: Text) -> Seq<Text> {
    code_lines(out.push(seq![]).push(place_line(finding)), finding).push(
        "      "@ + json::str_or(json::field_of(finding, "what"@), seq![]) + "  ["@ + id + "]"@,
    )
}

pub fn list_finding(out: &mut Vec<String>, finding: &Json, id: &str)
    ensures
        final(out).deep_view() == finding_lines(
            old(out).deep_view(),
            finding.deep_view(),
            id@,
        ),
{
    let none = text::empty();
    let line: u64 = finding.whole_at("line", 0);
    text::push(out, text::empty());
    let mut place = text::cat("  ", finding.text_at("file", none.as_str()).as_str());
    if line > 0 {
        text::extend(&mut place, ":");
        text::extend(&mut place, text::decimal(line).as_str());
    }
    text::push(out, place);
    let code = finding.text_at("text", none.as_str());
    if !text::is_empty(code.as_str()) {
        text::push(out, text::cat("      ", text::trim_start(code.as_str()).as_str()));
        if let Some((from, to)) = read_marks(finding) {
            let from: u64 = shift(from, code.as_str());
            let to: u64 = shift(to, code.as_str());
            text::push(
                out,
                text::cat3(
                    "      ",
                    text::repeat(' ', from).as_str(),
                    text::repeat('^', to - from).as_str(),
                ),
            );
        }
    }
    let mut last = text::cat("      ", finding.text_at("what", none.as_str()).as_str());
    text::extend(&mut last, "  [");
    text::extend(&mut last, id);
    text::extend(&mut last, "]");
    text::push(out, last);
}

/// The first findings among `n`, as long as fewer than [`SHOWN`] are shown.
pub open spec fn shown_findings(
    st: (Seq<Text>, nat),
    findings: Seq<JsonV>,
    id: Text,
    n: nat,
) -> (Seq<Text>, nat)
    decreases n,
{
    if n == 0 {
        st
    } else {
        let before = shown_findings(st, findings, id, (n - 1) as nat);
        if before.1 >= SHOWN {
            before
        } else {
            (finding_lines(before.0, findings[n - 1], id), before.1 + 1)
        }
    }
}

pub open spec fn findings_of(rule: JsonV) -> Seq<JsonV> {
    json::items_of(json::field_of(rule, "findings"@))
}

pub open spec fn shown_rules(st: (Seq<Text>, nat), rules: Seq<JsonV>, order: Seq<usize>, n: nat) -> (
    Seq<Text>,
    nat,
)
    decreases n,
{
    if n == 0 {
        st
    } else {
        let rule = rules[order[n - 1] as int];
        let findings = findings_of(rule);
        shown_findings(
            shown_rules(st, rules, order, (n - 1) as nat),
            findings,
            rule_id(rule, "?"@),
            findings.len(),
        )
    }
}

fn list_findings(out: &mut Vec<String>, rule: &Json, shown: usize) -> (now: usize)
    requires
        shown <= SHOWN,
    ensures
        now <= SHOWN,
        (final(out).deep_view(), now as nat) == shown_findings(
            (old(out).deep_view(), shown as nat),
            findings_of(rule.deep_view()),
            rule_id(rule.deep_view(), "?"@),
            findings_of(rule.deep_view()).len(),
        ),
{
    let mut now: usize = shown;
    if let Some(held) = rule.get("findings") {
        if let Some(findings) = held.as_list() {
            let id = id_of(rule, "?");
            let ghost start = (out.deep_view(), shown as nat);
            let mut i: usize = 0;
            while i < findings.len()
                invariant
                    i <= findings.len(),
                    now <= SHOWN,
                    (out.deep_view(), now as nat) == shown_findings(
                        start,
                        findings.deep_view(),
                        id@,
                        i as nat,
                    ),
                decreases findings.len() - i,
            {
                assert(findings.deep_view()[i as int] == findings@[i as int].deep_view());
                if now < SHOWN {
                    list_finding(out, &findings[i], id.as_str());
                    now += 1;
                }
                i += 1;
            }
        }
    }
    now
}

/// How many findings the first `n` of these rules have, as far as that can be
/// counted.
pub open spec fn found_in(rules: Seq<JsonV>, order: Seq<usize>, n: nat) -> u64
    decreases n,
{
    if n == 0 {
        0
    } else {
        table::more(
            found_in(rules, order, (n - 1) as nat),
            json::whole_or(json::field_of(rules[order[n - 1] as int], "total_findings"@), 0),
        )
    }
}

/// How a score moved.
pub open spec fn movement(was: Option<u64>, now: u64) -> Text {
    match was {
        Some(then) => if then == now {
            "      "@
        } else if now > then {
            "   +"@ + text::decimal_of((now - then) as nat)
        } else {
            "   −"@ + text::decimal_of((then - now) as nat)
        },
        None => seq![],
    }
}

pub open spec fn moved_lines(
    out: Seq<Text>,
    scores: Seq<(Text, u64)>,
    was: Seq<(Text, u64)>,
    n: nat,
) -> Seq<Text>
    decreases n,
{
    if n == 0 {
        out
    } else {
        let (category, value) = scores[n - 1];
        moved_lines(out, scores, was, (n - 1) as nat).push(
            score::score_line(category, value as nat) + movement(
                table::lookup(was, category),
                value,
            ),
        )
    }
}

/// The line that says what was read, in how long.
pub open spec fn head_line(files: usize, lines: u64, secs: Text) -> Text {
    "cqx "@ + VERSION@ + " · "@ + text::decimal_of(files as nat) + " files · "@
        + text::decimal_of(lines as nat) + " lines · "@ + secs + "s"@
}

/// What a person reads.
pub open spec fn report_lines(here: Scanned, secs: Text, against: Option<Against>) -> Seq<Text> {
    let report = here.report.deep_view();
    let rules = rules_of(report);
    let order = costly(rules, rules.len());
    let head: Seq<Text> = seq![head_line(here.files, here.lines, secs)];
    let (lines, shown) = shown_rules((head, 0), rules, order, order.len());
    let total = found_in(rules, order, order.len());
    let rest = if total > shown {
        lines.push(seq![]).push("  … "@ + text::decimal_of((total - shown) as nat) + " more"@)
    } else {
        lines
    };
    let scores = scores_of(report);
    moved_lines(rest.push(seq![]), scores, were(against), scores.len())
}

fn list_moved(out: &mut Vec<String>, here: &Scanned, against: &Option<Against>)
    ensures
        final(out).deep_view() == moved_lines(
            old(out).deep_view(),
            scores_of(here.report.deep_view()),
            were(*against),
            scores_of(here.report.deep_view()).len(),
        ),
{
    let was = was_by_category(against);
    let scores = here.scores();
    let ghost start = out.deep_view();
    let mut i: usize = 0;
    while i < scores.len()
        invariant
            i <= scores.len(),
            out.deep_view() == moved_lines(
                start,
                scores.deep_view(),
                was.deep_view(),
                i as nat,
            ),
        decreases scores.len() - i,
    {
        assert(scores.deep_view()[i as int] == scores@[i as int].deep_view());
        let value: u64 = scores[i].1;
        let mut line = score::show_score(scores[i].0.as_str(), value);
        let moved = match was.get(scores[i].0.as_str()) {
            Some(then) => {
                if *then == value {
                    "      ".to_owned()
                } else if value > *then {
                    text::cat("   +", text::decimal(value - *then).as_str())
                } else {
                    text::cat("   −", text::decimal(*then - value).as_str())
                }
            },
            None => text::empty(),
        };
        text::extend(&mut line, moved.as_str());
        text::push(out, line);
        i += 1;
    }
}

/// The lines of a report: what was read in how many seconds, the first findings
/// of the rules that cost something, and the scores with their movement.
pub fn report(here: &Scanned, secs: &str, against: &Option<Against>) -> (out: Vec<String>)
    ensures
        out.deep_view() == report_lines(*here, secs@, *against),
{
    let mut head = text::cat3("cqx ", VERSION, " · ");
    text::extend(&mut head, text::decimal(here.files as u64).as_str());
    text::extend(&mut head, " files · ");
    text::extend(&mut head, text::decimal(here.lines).as_str());
    text::extend(&mut head, " lines · ");
    text::extend(&mut head, secs);
    text::extend(&mut head, "s");
    let mut out: Vec<String> = Vec::new();
    text::push(&mut out, head);
    assert(out.deep_view() =~= seq![head_line(here.files, here.lines, secs@)]);
    let none: Vec<Json> = Vec::new();
    assert(none.deep_view() =~= seq![]);
    let rules: &Vec<Json> = match here.report.get("rules") {
        Some(held) => match held.as_list() {
            Some(rules) => rules,
            None => &none,
        },
        None => &none,
    };
    assert(rules.deep_view() == rules_of(here.report.deep_view()));
    let order = rank_costly(rules);
    let ghost start = (out.deep_view(), 0nat);
    let mut shown: usize = 0;
    let mut total: u64 = 0;
    let mut i: usize = 0;
    while i < order.len()
        invariant
            i <= order.len(),
            shown <= SHOWN,
            forall|k: int| 0 <= k < order@.len() ==> #[trigger] order@[k] < rules@.len(),
            (out.deep_view(), shown as nat) == shown_rules(
                start,
                rules.deep_view(),
                order@,
                i as nat,
            ),
            total == found_in(rules.deep_view(), order@, i as nat),
        decreases order.len() - i,
    {
        let rule = &rules[order[i]];
        assert(rules.deep_view()[order@[i as int] as int] == rule.deep_view());
        shown = list_findings(&mut out, rule, shown);
        total = table::sum(total, rule.whole_at("total_findings", 0));
        i += 1;
    }
    if total > shown as u64 {
        let rest: u64 = total - shown as u64;
        text::push(&mut out, text::empty());
        text::push(&mut out, text::cat3("  … ", text::decimal(rest).as_str(), " more"));
    }
    text::push(&mut out, text::empty());
    list_moved(&mut out, here, against);
    out
}

// --- what a report says of a tree --------------------------------------------

/// A finding is quoted with the line that it names of the file that it names, and
/// nothing else of it changes; where there is no such line it stays as it was.
pub proof fn lemma_line_quoted(
    fields: Seq<(Text, JsonV)>,
    sources: Seq<(Text, Text)>,
    file: Text,
    line: u64,
    source: Text,
    other: Text,
)
    requires
        table::lookup(fields, "file"@) == Some(JsonV::Str(file)),
        table::lookup(fields, "line"@) == Some(JsonV::Whole(line)),
    ensures
        ({
            let lines = text::lines_of(source);
            let after = quoted_finding(JsonV::Object(fields), sources);
            &&& table::lookup(sources, file) == Some(source) && 1 <= line <= lines.len() ==> {
                &&& json::field_of(after, "text"@) == Some(JsonV::Str(lines[line - 1]))
                &&& other != "text"@ ==> json::field_of(after, other) == table::lookup(
                    fields,
                    other,
                )
            }
            &&& table::lookup(sources, file) is None ==> after == JsonV::Object(fields)
            &&& table::lookup(sources, file) == Some(source) && (line == 0 || line > lines.len())
                ==> after == JsonV::Object(fields)
        }),
{
    let lines = text::lines_of(source);
    if 1 <= line <= lines.len() {
        json::lemma_with_field(fields, "text"@, JsonV::Str(lines[line - 1]), "text"@);
        json::lemma_with_field(fields, "text"@, JsonV::Str(lines[line - 1]), other);
    }
}

/// A category is refused where it was better before, and where it is under the
/// floor, and only there.
pub proof fn lemma_refused(
    scores: Seq<(Text, u64)>,
    was: Seq<(Text, u64)>,
    reference: Text,
    out: Seq<Text>,
    min: u64,
    n: nat,
)
    requires
        n <= scores.len(),
    ensures
        worse(scores, was, reference, n).len() == scores.take(n as int).filter(
            |row: (Text, u64)|
                table::lookup(was, row.0) is Some && row.1 < table::lookup(was, row.0).unwrap(),
        ).len(),
        low(out, scores, min, n).len() == out.len() + scores.take(n as int).filter(
            |row: (Text, u64)| row.1 < min,
        ).len(),
    decreases n,
{
    reveal(Seq::filter);
    if n > 0 {
        lemma_refused(scores, was, reference, out, min, (n - 1) as nat);
        assert(scores.take(n as int).drop_last() =~= scores.take(n - 1));
        assert(scores.take(n as int).last() == scores[n - 1]);
    }
}

/// A report's scores are those it lists, in their order.
pub proof fn lemma_scores_read(report: JsonV, fields: Seq<(Text, JsonV)>, i: int)
    requires
        json::field_of(report, "scores"@) == Some(JsonV::Object(fields)),
        0 <= i < fields.len(),
    ensures
        scores_of(report).len() == fields.len(),
        scores_of(report)[i].0 == fields[i].0,
        fields[i].1 matches JsonV::Whole(n) ==> scores_of(report)[i].1 == n,
{
}

/// What a category scored before is what the other report says last of it.
pub proof fn lemma_by_category(scores: Seq<(Text, u64)>, n: nat, last: int)
    requires
        0 <= last < n <= scores.len(),
        forall|j: int| last < j < n ==> (#[trigger] scores[j]).0 != scores[last].0,
    ensures
        table::lookup(by_category(scores, n), scores[last].0) == Some(scores[last].1),
    decreases n,
{
    let before = by_category(scores, (n - 1) as nat);
    table::lemma_put_lookup(before, scores[n - 1].0, scores[n - 1].1, scores[last].0);
    if last < n - 1 {
        lemma_by_category(scores, (n - 1) as nat, last);
    }
}

/// A field that is stamped on a report is there, and the others are as they were.
pub proof fn lemma_stamped(fields: Seq<(Text, JsonV)>, key: Text, held: JsonV, other: Text)
    ensures
        json::field_of(stamped(JsonV::Object(fields), key, held), key) == Some(held),
        other != key ==> json::field_of(stamped(JsonV::Object(fields), key, held), other)
            == table::lookup(fields, other),
{
    json::lemma_with_field(fields, key, held, key);
    json::lemma_with_field(fields, key, held, other);
}

/// What a run cost says how many files and lines were read in how long.
pub proof fn lemma_cost_said(files: usize, lines: u64, ms: u64)
    ensures
        json::field_of(cost_json(files, lines, ms), "files"@) == Some(JsonV::Whole(files as u64)),
        json::field_of(cost_json(files, lines, ms), "lines"@) == Some(JsonV::Whole(lines)),
        json::field_of(cost_json(files, lines, ms), "ms"@) == Some(JsonV::Whole(ms)),
{
    broadcast use crate::table::lemma_lookup_push;

    reveal_strlit("files");
    reveal_strlit("lines");
    reveal_strlit("ms");
    assert("files"@[0] == 'f' && "lines"@[0] == 'l' && "ms"@.len() == 2);
    let first = seq![("files"@, JsonV::Whole(files as u64))];
    assert(first.skip(1) =~= seq![]);
    assert(table::lookup(first, "files"@) == Some(JsonV::Whole(files as u64)));
    assert(table::lookup(first, "lines"@) is None);
    assert(table::lookup(first, "ms"@) is None);
}

/// A finding is shown by where it is, and by what it says under the rule's id.
pub proof fn lemma_finding_shown(out: Seq<Text>, fields: Seq<(Text, JsonV)>, id: Text, file: Text, what: Text, line: u64)
    requires
        table::lookup(fields, "file"@) == Some(JsonV::Str(file)),
        table::lookup(fields, "what"@) == Some(JsonV::Str(what)),
        table::lookup(fields, "line"@) == Some(JsonV::Whole(line)),
    ensures
        ({
            let after = finding_lines(out, JsonV::Object(fields), id);
            &&& after.len() >= out.len() + 3
            &&& after.last() == "      "@ + what + "  ["@ + id + "]"@
            &&& line > 0 ==> after[out.len() as int + 1] == "  "@ + file + ":"@ + text::decimal_of(
                line as nat,
            )
            &&& line == 0 ==> after[out.len() as int + 1] == "  "@ + file
        }),
{
}


/// A score that rose is told with how far, and one that fell with how far.
pub proof fn lemma_movement(then: u64, now: u64)
    ensures
        now > then ==> movement(Some(then), now) == "   +"@ + text::decimal_of((now - then) as nat),
        now < then ==> movement(Some(then), now) == "   −"@ + text::decimal_of((then - now) as nat),
        movement(None, now).len() == 0,
        movement(Some(now), now) == "      "@,
{
}

/// A mark stands under what it marks: as far in as the place is behind the indent,
/// and as long as the place is.
pub proof fn lemma_marked(line: Text, from: u64, to: u64)
    requires
        vfs::bytes_in(indent(line)) <= from <= to,
    ensures
        ({
            let lead = vfs::bytes_in(indent(line));
            let mark = mark_line(line, from, to);
            &&& mark.len() == 6 + to - lead
            &&& forall|i: int| 0 <= i < 6 + from - lead ==> mark[i] == ' '
            &&& forall|i: int| 6 + from - lead <= i < mark.len() ==> mark[i] == '^'
        }),
{
    let lead = vfs::bytes_in(indent(line));
    reveal_strlit("      ");
    assert("      "@ =~= seq![' ', ' ', ' ', ' ', ' ', ' ']);
    text::lemma_repeated(' ', less_by(from, lead) as nat);
    text::lemma_repeated('^', (less_by(to, lead) - less_by(from, lead)) as nat);
}

}
