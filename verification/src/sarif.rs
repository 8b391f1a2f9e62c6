//! Findings as SARIF, which is how a code host shows them on the line they are
//! on.
//!
//! Only what the schema requires and what a reader gains from.

use vstd::prelude::*;

use crate::json::{self, Json, JsonV};
use crate::measure::{self, Real, RealV};
use crate::scan;
use crate::schema::VERSION;
use crate::table::{self, Names};
use crate::text::{self, Text};

verus! {

pub const SCHEMA: &'static str = "https://json.schemastore.org/sarif-2.1.0.json";

/// A number that is not above nothing.
pub open spec fn is_nothing(bits: u64) -> bool {
    measure::below(bits, 0) || measure::level_with(bits, 0)
}

fn nothing(bits: u64) -> (r: bool)
    ensures
        r == is_nothing(bits),
{
    measure::is_below(bits, 0) || measure::is_level(bits, 0)
}

/// How loudly a rule speaks in this repository: by how much of its weight it
/// took here. A rule at its cap is the reason a category dropped, and one that
/// cost nothing is context.
pub open spec fn level_of(weight: u64, deducted: u64) -> Text {
    if is_nothing(weight) || is_nothing(deducted) {
        "note"@
    } else if measure::half_of(deducted, weight) {
        "error"@
    } else {
        "warning"@
    }
}

fn level(weight: u64, deducted: u64) -> (s: &'static str)
    ensures
        s@ == level_of(weight, deducted),
{
    if nothing(weight) || nothing(deducted) {
        return "note";
    }
    if measure::is_below(0, deducted) && measure::is_half(deducted, weight) {
        "error"
    } else {
        "warning"
    }
}

/// The number under a key, or nothing.
pub open spec fn number_at(value: JsonV, key: Text) -> RealV {
    match json::field_of(value, key) {
        Some(v) => match json::real_of(v) {
            Some(r) => r,
            None => RealV { bits: 0, text: "0"@ },
        },
        None => RealV { bits: 0, text: "0"@ },
    }
}

fn read_number(value: &Json, key: &str) -> (r: Real)
    ensures
        r.deep_view() == number_at(value.deep_view(), key@),
{
    if let Some(v) = value.get(key) {
        if let Some(r) = v.as_real() {
            return r;
        }
    }
    Real { bits: 0, text: "0".to_owned() }
}

pub open spec fn text_at(value: JsonV, key: Text) -> Text {
    json::str_or(json::field_of(value, key), seq![])
}

fn read_text(value: &Json, key: &str) -> (s: String)
    ensures
        s@ == text_at(value.deep_view(), key@),
{
    value.text_at(key, text::empty().as_str())
}

pub open spec fn one_text(s: Text) -> JsonV {
    JsonV::Object(seq![("text"@, JsonV::Str(s))])
}

// --- rules -------------------------------------------------------------------

pub open spec fn page_of(id: Text) -> Text {
    "https://docs.cqx.dev/"@ + id
}

pub open spec fn help_json(id: Text, remedy: Text) -> JsonV {
    JsonV::Object(
        seq![("text"@, JsonV::Str(remedy))].push(
            (
                "markdown"@,
                JsonV::Str(remedy + "\n\n["@ + id + "]("@ + page_of(id) + ")"@),
            ),
        ),
    )
}

fn write_help(id: &str, remedy: &str) -> (j: Json)
    ensures
        j.deep_view() == help_json(id@, remedy@),
{
    let page = text::cat("https://docs.cqx.dev/", id);
    let mut fields = json::no_fields();
    crate::json::add(&mut fields, "text", Json::str(remedy));
    crate::json::add(
        &mut fields,
        "markdown",
        Json::Str(text::cat(text::cat5(remedy, "\n\n[", id, "](", page.as_str()).as_str(), ")")),
    );
    assert(fields.deep_view() =~= help_json(id@, remedy@)->Object_0);
    Json::object(fields)
}

pub open spec fn rule_level(rule: JsonV) -> Text {
    level_of(number_at(rule, "weight"@).bits, number_at(rule, "deducted"@).bits)
}

pub open spec fn properties_json(rule: JsonV) -> JsonV {
    JsonV::Object(
        seq![("tags"@, JsonV::List(seq![JsonV::Str(text_at(rule, "category"@))]))].push(
            ("weight"@, JsonV::Part(number_at(rule, "weight"@))),
        ),
    )
}

pub open spec fn descriptor_json(rule: JsonV) -> JsonV {
    let id = scan::rule_id(rule, seq![]);
    let describes = text_at(rule, "describes"@);
    let remedy = text_at(rule, "remedy"@);
    JsonV::Object(
        seq![("id"@, JsonV::Str(id))].push(("name"@, JsonV::Str(text_at(rule, "rule"@)))).push(
            ("shortDescription"@, one_text(describes)),
        ).push(
            (
                "fullDescription"@,
                one_text(
                    if remedy.len() == 0 {
                        describes
                    } else {
                        remedy
                    },
                ),
            ),
        ).push(("help"@, help_json(id, remedy))).push(("helpUri"@, JsonV::Str(page_of(id)))).push(
            ("defaultConfiguration"@, JsonV::Object(seq![("level"@, JsonV::Str(rule_level(rule)))])),
        ).push(("properties"@, properties_json(rule))),
    )
}

fn write_descriptor(rule: &Json) -> (j: Json)
    ensures
        j.deep_view() == descriptor_json(rule.deep_view()),
{
    let id = scan::id_of(rule, text::empty().as_str());
    let describes = read_text(rule, "describes");
    let remedy = read_text(rule, "remedy");
    let weight = read_number(rule, "weight");
    let level = level(weight.bits, read_number(rule, "deducted").bits);
    let full: &str = if text::is_empty(remedy.as_str()) {
        describes.as_str()
    } else {
        remedy.as_str()
    };
    let mut properties = json::no_fields();
    crate::json::add(
        &mut properties,
        "tags",
        json::only(Json::Str(read_text(rule, "category"))),
    );
    crate::json::add(&mut properties, "weight", Json::Part(weight));
    assert(properties.deep_view() =~= properties_json(rule.deep_view())->Object_0);
    let mut fields = json::no_fields();
    crate::json::add(&mut fields, "id", Json::str(id.as_str()));
    crate::json::add(&mut fields, "name", Json::Str(read_text(rule, "rule")));
    crate::json::add(
        &mut fields,
        "shortDescription",
        json::holding("text", Json::str(describes.as_str())),
    );
    crate::json::add(&mut fields, "fullDescription", json::holding("text", Json::str(full)));
    crate::json::add(&mut fields, "help", write_help(id.as_str(), remedy.as_str()));
    crate::json::add(
        &mut fields,
        "helpUri",
        Json::Str(text::cat("https://docs.cqx.dev/", id.as_str())),
    );
    crate::json::add(
        &mut fields,
        "defaultConfiguration",
        json::holding("level", Json::str(level)),
    );
    crate::json::add(&mut fields, "properties", Json::object(properties));
    assert(fields.deep_view() =~= descriptor_json(rule.deep_view())->Object_0);
    Json::object(fields)
}

// --- results -----------------------------------------------------------------

/// Where in a file a finding is. SARIF counts lines and columns from one; the
/// extractor counts columns from zero, and the end is exclusive in both.
pub open spec fn region_json(finding: JsonV) -> JsonV {
    let line = json::whole_or(json::field_of(finding, "line"@), 0);
    let start = seq![
        (
            "startLine"@,
            JsonV::Whole(
                if line < 1 {
                    1
                } else {
                    line
                },
            ),
        ),
    ];
    let columns = match scan::marked(finding) {
        Some((from, to)) => start.push(("startColumn"@, JsonV::Whole(table::more(from, 1)))).push(
            ("endColumn"@, JsonV::Whole(table::more(to, 1))),
        ),
        None => start,
    };
    let quote = text_at(finding, "text"@);
    JsonV::Object(
        if quote.len() == 0 {
            columns
        } else {
            columns.push(("snippet"@, one_text(quote)))
        },
    )
}

fn write_region(finding: &Json) -> (j: Json)
    ensures
        j.deep_view() == region_json(finding.deep_view()),
{
    let line: u64 = finding.whole_at("line", 0);
    let start: u64 = if line < 1 {
        1
    } else {
        line
    };
    let mut fields = json::no_fields();
    crate::json::add(&mut fields, "startLine", Json::Whole(start));
    assert(fields.deep_view() =~= seq![("startLine"@, JsonV::Whole(start))]);
    if let Some((from, to)) = scan::read_marks(finding) {
        crate::json::add(&mut fields, "startColumn", Json::Whole(table::sum(from, 1)));
        crate::json::add(&mut fields, "endColumn", Json::Whole(table::sum(to, 1)));
    }
    let quote = read_text(finding, "text");
    if !text::is_empty(quote.as_str()) {
        crate::json::add(&mut fields, "snippet", json::holding("text", Json::Str(quote)));
    }
    Json::object(fields)
}

pub open spec fn location_json(finding: JsonV) -> JsonV {
    JsonV::Object(
        seq![
            (
                "physicalLocation"@,
                JsonV::Object(
                    seq![
                        (
                            "artifactLocation"@,
                            JsonV::Object(
                                seq![("uri"@, JsonV::Str(text_at(finding, "file"@)))],
                            ),
                        ),
                    ].push(("region"@, region_json(finding))),
                ),
            ),
        ],
    )
}

fn write_location(finding: &Json) -> (j: Json)
    ensures
        j.deep_view() == location_json(finding.deep_view()),
{
    let mut fields = json::no_fields();
    crate::json::add(
        &mut fields,
        "artifactLocation",
        json::holding("uri", Json::Str(read_text(finding, "file"))),
    );
    crate::json::add(&mut fields, "region", write_region(finding));
    assert(fields.deep_view() =~= seq![
        (
            "artifactLocation"@,
            JsonV::Object(seq![("uri"@, JsonV::Str(text_at(finding.deep_view(), "file"@)))]),
        ),
    ].push(("region"@, region_json(finding.deep_view()))));
    json::holding("physicalLocation", Json::object(fields))
}

/// What makes a finding the same finding after the lines around it move.
pub open spec fn fingerprint(id: Text, finding: JsonV) -> Text {
    id + ":"@ + text_at(finding, "file"@) + ":"@ + text_at(finding, "what"@)
}

pub open spec fn result_json(id: Text, level: Text, finding: JsonV) -> JsonV {
    JsonV::Object(
        seq![("ruleId"@, JsonV::Str(id))].push(("level"@, JsonV::Str(level))).push(
            ("message"@, one_text(text_at(finding, "what"@))),
        ).push(("locations"@, JsonV::List(seq![location_json(finding)]))).push(
            (
                "partialFingerprints"@,
                JsonV::Object(seq![("cqx/v1"@, JsonV::Str(fingerprint(id, finding)))]),
            ),
        ),
    )
}

fn write_result(id: &str, level: &str, finding: &Json) -> (j: Json)
    ensures
        j.deep_view() == result_json(id@, level@, finding.deep_view()),
{
    let what = read_text(finding, "what");
    let print = text::cat5(
        id,
        ":",
        read_text(finding, "file").as_str(),
        ":",
        what.as_str(),
    );
    let mut fields = json::no_fields();
    crate::json::add(&mut fields, "ruleId", Json::str(id));
    crate::json::add(&mut fields, "level", Json::str(level));
    crate::json::add(&mut fields, "message", json::holding("text", Json::Str(what)));
    crate::json::add(&mut fields, "locations", json::only(write_location(finding)));
    crate::json::add(&mut fields, "partialFingerprints", json::holding("cqx/v1", Json::Str(print)));
    assert(fields.deep_view() =~= result_json(id@, level@, finding.deep_view())->Object_0);
    Json::object(fields)
}

/// Whether a finding has a place in a diff: whether its file is one. A location
/// that does not resolve is worse than none.
pub open spec fn has_place(finding: JsonV, present: Seq<(Text, ())>) -> bool {
    let file = text_at(finding, "file"@);
    file.len() > 0 && table::lookup(present, file) is Some
}

pub open spec fn results_of(
    out: Seq<JsonV>,
    rule: JsonV,
    present: Seq<(Text, ())>,
    n: nat,
) -> Seq<JsonV>
    decreases n,
{
    if n == 0 {
        out
    } else {
        let before = results_of(out, rule, present, (n - 1) as nat);
        let finding = scan::findings_of(rule)[n - 1];
        if has_place(finding, present) {
            before.push(result_json(scan::rule_id(rule, seq![]), rule_level(rule), finding))
        } else {
            before
        }
    }
}

fn add_results(out: &mut Vec<Json>, rule: &Json, present: &Names)
    ensures
        final(out).deep_view() == results_of(
            old(out).deep_view(),
            rule.deep_view(),
            present.deep_view(),
            scan::findings_of(rule.deep_view()).len(),
        ),
{
    let ghost start = out.deep_view();
    let id = scan::id_of(rule, text::empty().as_str());
    let level = level(read_number(rule, "weight").bits, read_number(rule, "deducted").bits);
    if let Some(held) = rule.get("findings") {
        if let Some(findings) = held.as_list() {
            let mut i: usize = 0;
            while i < findings.len()
                invariant
                    i <= findings.len(),
                    findings.deep_view() == scan::findings_of(rule.deep_view()),
                    id@ == scan::rule_id(rule.deep_view(), seq![]),
                    level@ == rule_level(rule.deep_view()),
                    out.deep_view() == results_of(
                        start,
                        rule.deep_view(),
                        present.deep_view(),
                        i as nat,
                    ),
                decreases findings.len() - i,
            {
                assert(findings.deep_view()[i as int] == findings@[i as int].deep_view());
                let file = read_text(&findings[i], "file");
                if !text::is_empty(file.as_str()) && present.contains(file.as_str()) {
                    text::push(out, write_result(id.as_str(), level, &findings[i]));
                }
                i += 1;
            }
        }
    }
}

pub open spec fn all_results(rules: Seq<JsonV>, present: Seq<(Text, ())>, n: nat) -> Seq<JsonV>
    decreases n,
{
    if n == 0 {
        seq![]
    } else {
        results_of(
            all_results(rules, present, (n - 1) as nat),
            rules[n - 1],
            present,
            scan::findings_of(rules[n - 1]).len(),
        )
    }
}

/// A result of a finding that has its place.
pub open spec fn is_placed(result: JsonV, present: Seq<(Text, ())>) -> bool {
    exists|id: Text, level: Text, finding: JsonV|
        result == #[trigger] result_json(id, level, finding) && has_place(finding, present)
}

proof fn lemma_results_of(
    out: Seq<JsonV>,
    rule: JsonV,
    present: Seq<(Text, ())>,
    n: nat,
)
    requires
        forall|i: int| 0 <= i < out.len() ==> is_placed(#[trigger] out[i], present),
    ensures
        forall|i: int|
            0 <= i < results_of(out, rule, present, n).len() ==> is_placed(
                #[trigger] results_of(out, rule, present, n)[i],
                present,
            ),
    decreases n,
{
    if n > 0 {
        lemma_results_of(out, rule, present, (n - 1) as nat);
        let before = results_of(out, rule, present, (n - 1) as nat);
        let after = results_of(out, rule, present, n);
        let finding = scan::findings_of(rule)[n - 1];
        let last = result_json(scan::rule_id(rule, seq![]), rule_level(rule), finding);
        assert forall|i: int| 0 <= i < after.len() implies is_placed(
            #[trigger] after[i],
            present,
        ) by {
            if i < before.len() {
                assert(after[i] == before[i]);
            } else {
                assert(after[i] == last);
            }
        }
    }
}

/// No result points at a file that is not there.
pub proof fn lemma_results_placed(rules: Seq<JsonV>, present: Seq<(Text, ())>, n: nat)
    ensures
        forall|i: int|
            0 <= i < all_results(rules, present, n).len() ==> is_placed(
                #[trigger] all_results(rules, present, n)[i],
                present,
            ),
    decreases n,
{
    if n > 0 {
        lemma_results_placed(rules, present, (n - 1) as nat);
        lemma_results_of(
            all_results(rules, present, (n - 1) as nat),
            rules[n - 1],
            present,
            scan::findings_of(rules[n - 1]).len(),
        );
    }
}

// --- the document ------------------------------------------------------------

pub open spec fn artifact_json(path: Text) -> JsonV {
    JsonV::Object(
        seq![("location"@, JsonV::Object(seq![("uri"@, JsonV::Str(path))]))].push(
            ("roles"@, JsonV::List(seq![JsonV::Str("analysisTarget"@)])),
        ),
    )
}

fn write_artifacts(scanned: &Vec<String>) -> (j: Json)
    ensures
        j.deep_view() == JsonV::List(
            Seq::new(scanned@.len(), |i: int| artifact_json(scanned.deep_view()[i])),
        ),
{
    let mut items: Vec<Json> = Vec::new();
    let mut i: usize = 0;
    while i < scanned.len()
        invariant
            i <= scanned.len(),
            items.deep_view() == Seq::new(
                i as nat,
                |k: int| artifact_json(scanned.deep_view()[k]),
            ),
        decreases scanned.len() - i,
    {
        assert(scanned.deep_view()[i as int] == scanned@[i as int]@);
        let mut fields = json::no_fields();
        crate::json::add(
            &mut fields,
            "location",
            json::holding("uri", Json::str(scanned[i].as_str())),
        );
        crate::json::add(&mut fields, "roles", json::only(Json::str("analysisTarget")));
        assert(fields.deep_view() =~= artifact_json(scanned@[i as int]@)->Object_0);
        text::push(&mut items, Json::object(fields));
        assert(items.deep_view() =~= Seq::new(
            (i + 1) as nat,
            |k: int| artifact_json(scanned.deep_view()[k]),
        ));
        i += 1;
    }
    Json::list(items)
}

pub open spec fn driver_json(descriptors: JsonV) -> JsonV {
    JsonV::Object(
        seq![("name"@, JsonV::Str("cqx"@))].push(
            ("semanticVersion"@, JsonV::Str(VERSION@)),
        ).push(("version"@, JsonV::Str(VERSION@))).push(
            ("informationUri"@, JsonV::Str("https://cqx.dev"@)),
        ).push(("rules"@, descriptors)),
    )
}

fn write_driver(descriptors: Json) -> (j: Json)
    ensures
        j.deep_view() == driver_json(descriptors.deep_view()),
{
    let mut fields = json::no_fields();
    crate::json::add(&mut fields, "name", Json::str("cqx"));
    crate::json::add(&mut fields, "semanticVersion", Json::str(VERSION));
    crate::json::add(&mut fields, "version", Json::str(VERSION));
    crate::json::add(&mut fields, "informationUri", Json::str("https://cqx.dev"));
    crate::json::add(&mut fields, "rules", descriptors);
    assert(fields.deep_view() =~= driver_json(descriptors.deep_view())->Object_0);
    Json::object(fields)
}

/// One run over the whole tree. Saying so is what stops a host from treating
/// the results it did not receive this time as fixed.
pub open spec fn run_json(descriptors: JsonV, artifacts: JsonV, results: JsonV) -> JsonV {
    JsonV::Object(
        seq![("tool"@, JsonV::Object(seq![("driver"@, driver_json(descriptors))]))].push(
            ("artifacts"@, artifacts),
        ).push(("results"@, results)).push(
            ("properties"@, JsonV::Object(seq![("scope"@, JsonV::Str("whole-tree"@))])),
        ),
    )
}

fn write_run(descriptors: Json, artifacts: Json, results: Json) -> (j: Json)
    ensures
        j.deep_view() == run_json(
            descriptors.deep_view(),
            artifacts.deep_view(),
            results.deep_view(),
        ),
{
    let mut fields = json::no_fields();
    crate::json::add(&mut fields, "tool", json::holding("driver", write_driver(descriptors)));
    crate::json::add(&mut fields, "artifacts", artifacts);
    crate::json::add(&mut fields, "results", results);
    crate::json::add(&mut fields, "properties", json::holding("scope", Json::str("whole-tree")));
    assert(fields.deep_view() =~= run_json(
        descriptors.deep_view(),
        artifacts.deep_view(),
        results.deep_view(),
    )->Object_0);
    Json::object(fields)
}

/// The SARIF of a report, given which files are there and which were scanned.
pub open spec fn sarif_of(report: JsonV, present: Seq<(Text, ())>, scanned: Seq<Text>) -> JsonV {
    let rules = scan::rules_of(report);
    JsonV::Object(
        seq![("$schema"@, JsonV::Str(SCHEMA@))].push(("version"@, JsonV::Str("2.1.0"@))).push(
            (
                "runs"@,
                JsonV::List(
                    seq![
                        run_json(
                            JsonV::List(
                                Seq::new(rules.len(), |i: int| descriptor_json(rules[i])),
                            ),
                            JsonV::List(
                                Seq::new(scanned.len(), |i: int| artifact_json(scanned[i])),
                            ),
                            JsonV::List(all_results(rules, present, rules.len())),
                        ),
                    ],
                ),
            ),
        ),
    )
}

pub fn build(report: &Json, present: &Names, scanned: &Vec<String>) -> (j: Json)
    ensures
        j.deep_view() == sarif_of(
            report.deep_view(),
            present.deep_view(),
            scanned.deep_view(),
        ),
{
    let none: Vec<Json> = Vec::new();
    assert(none.deep_view() =~= seq![]);
    let rules: &Vec<Json> = match report.get("rules") {
        Some(held) => match held.as_list() {
            Some(rules) => rules,
            None => &none,
        },
        None => &none,
    };
    let ghost held = rules.deep_view();
    assert(held == scan::rules_of(report.deep_view()));
    let mut descriptors: Vec<Json> = Vec::new();
    let mut results: Vec<Json> = Vec::new();
    assert(results.deep_view() =~= seq![]);
    let mut i: usize = 0;
    while i < rules.len()
        invariant
            i <= rules.len(),
            held == rules.deep_view(),
            descriptors.deep_view() == Seq::new(i as nat, |k: int| descriptor_json(held[k])),
            results.deep_view() == all_results(held, present.deep_view(), i as nat),
        decreases rules.len() - i,
    {
        assert(held[i as int] == rules@[i as int].deep_view());
        text::push(&mut descriptors, write_descriptor(&rules[i]));
        assert(descriptors.deep_view() =~= Seq::new(
            (i + 1) as nat,
            |k: int| descriptor_json(held[k]),
        ));
        add_results(&mut results, &rules[i], present);
        i += 1;
    }
    let run = write_run(Json::list(descriptors), write_artifacts(scanned), Json::list(results));
    let mut fields = json::no_fields();
    crate::json::add(&mut fields, "$schema", Json::str(SCHEMA));
    crate::json::add(&mut fields, "version", Json::str("2.1.0"));
    crate::json::add(&mut fields, "runs", json::only(run));
    assert(fields.deep_view() =~= sarif_of(
        report.deep_view(),
        present.deep_view(),
        scanned.deep_view(),
    )->Object_0);
    Json::object(fields)
}

// --- what a result is known by -----------------------------------------------

/// What a result is known by from one run to the next: its rule and its
/// fingerprints.
pub open spec fn known_by(result: JsonV) -> (Option<JsonV>, Option<JsonV>) {
    (json::field_of(result, "ruleId"@), json::field_of(result, "partialFingerprints"@))
}

pub open spec fn all_known_by(results: Seq<JsonV>) -> Seq<(Option<JsonV>, Option<JsonV>)> {
    Seq::new(results.len(), |i: int| known_by(results[i]))
}

/// Whether two findings say the same of the same file, wherever in it.
pub open spec fn same_finding(a: JsonV, b: JsonV) -> bool {
    text_at(a, "file"@) == text_at(b, "file"@) && text_at(a, "what"@) == text_at(b, "what"@)
}

/// Whether two rules found the same, wherever in the files.
pub open spec fn same_findings(a: JsonV, b: JsonV) -> bool {
    &&& scan::rule_id(a, seq![]) == scan::rule_id(b, seq![])
    &&& scan::findings_of(a).len() == scan::findings_of(b).len()
    &&& forall|i: int|
        0 <= i < scan::findings_of(a).len() ==> same_finding(
            #[trigger] scan::findings_of(a)[i],
            scan::findings_of(b)[i],
        )
}

proof fn lemma_known_by(id: Text, level: Text, other: Text, a: JsonV, b: JsonV)
    requires
        same_finding(a, b),
    ensures
        known_by(result_json(id, level, a)) == known_by(result_json(id, other, b)),
{
    broadcast use crate::table::lemma_lookup_push;

    reveal_strlit("ruleId");
    reveal_strlit("level");
    reveal_strlit("message");
    reveal_strlit("locations");
    reveal_strlit("partialFingerprints");
    assert("ruleId"@.len() == 6 && "level"@.len() == 5 && "message"@.len() == 7);
    assert("locations"@.len() == 9 && "partialFingerprints"@.len() == 19);
    let (x, y) = (result_json(id, level, a)->Object_0, result_json(id, other, b)->Object_0);
    assert(table::lookup(seq![x[0]], "ruleId"@) == Some(x[0].1));
    assert(table::lookup(seq![y[0]], "ruleId"@) == Some(y[0].1));
    assert(table::lookup(seq![x[0]], "partialFingerprints"@) is None);
    assert(table::lookup(seq![y[0]], "partialFingerprints"@) is None);
}

proof fn lemma_results_known_by(
    x: Seq<JsonV>,
    y: Seq<JsonV>,
    a: JsonV,
    b: JsonV,
    present: Seq<(Text, ())>,
    n: nat,
)
    requires
        all_known_by(x) == all_known_by(y),
        same_findings(a, b),
        n <= scan::findings_of(a).len(),
    ensures
        all_known_by(results_of(x, a, present, n)) == all_known_by(results_of(y, b, present, n)),
    decreases n,
{
    if n > 0 {
        lemma_results_known_by(x, y, a, b, present, (n - 1) as nat);
        let (f, g) = (scan::findings_of(a)[n - 1], scan::findings_of(b)[n - 1]);
        assert(same_finding(f, g));
        let (p, q) = (
            results_of(x, a, present, (n - 1) as nat),
            results_of(y, b, present, (n - 1) as nat),
        );
        assert(all_known_by(p).len() == p.len());
        assert(all_known_by(q).len() == q.len());
        if has_place(f, present) {
            let id = scan::rule_id(a, seq![]);
            lemma_known_by(id, rule_level(a), rule_level(b), f, g);
            let r = result_json(id, rule_level(a), f);
            let s = result_json(id, rule_level(b), g);
            assert(all_known_by(p.push(r)) =~= all_known_by(p).push(known_by(r)));
            assert(all_known_by(q.push(s)) =~= all_known_by(q).push(known_by(s)));
        }
    }
}

/// Where lines move and nothing else does, every result is known by what it was
/// known by.
pub proof fn lemma_moved_lines(a: Seq<JsonV>, b: Seq<JsonV>, present: Seq<(Text, ())>, n: nat)
    requires
        n <= a.len(),
        a.len() == b.len(),
        forall|i: int| 0 <= i < a.len() ==> same_findings(#[trigger] a[i], b[i]),
    ensures
        all_known_by(all_results(a, present, n)) == all_known_by(all_results(b, present, n)),
    decreases n,
{
    if n > 0 {
        lemma_moved_lines(a, b, present, (n - 1) as nat);
        assert(same_findings(a[n - 1], b[n - 1]));
        lemma_results_known_by(
            all_results(a, present, (n - 1) as nat),
            all_results(b, present, (n - 1) as nat),
            a[n - 1],
            b[n - 1],
            present,
            scan::findings_of(a[n - 1]).len(),
        );
    }
}

// --- what a result says ------------------------------------------------------

/// A result names its rule, says what was found, and points at the file and the
/// line that the finding does, with columns counted from one.
#[verifier::rlimit(60)]
pub proof fn lemma_result_said(
    id: Text,
    level: Text,
    fields: Seq<(Text, JsonV)>,
    file: Text,
    what: Text,
    line: u64,
    from: u64,
    to: u64,
)
    requires
        table::lookup(fields, "file"@) == Some(JsonV::Str(file)),
        table::lookup(fields, "what"@) == Some(JsonV::Str(what)),
        table::lookup(fields, "line"@) == Some(JsonV::Whole(line)),
    ensures
        ({
            let finding = JsonV::Object(fields);
            let result = result_json(id, level, finding);
            &&& json::field_of(result, "ruleId"@) == Some(JsonV::Str(id))
            &&& json::field_of(result, "level"@) == Some(JsonV::Str(level))
            &&& json::field_of(result, "message"@) matches Some(message) && json::field_of(
                message,
                "text"@,
            ) == Some(JsonV::Str(what))
            &&& json::field_of(result, "locations"@) == Some(
                JsonV::List(seq![location_json(finding)]),
            )
            &&& json::field_of(location_json(finding), "physicalLocation"@) matches Some(place)
                && json::field_of(place, "region"@) == Some(region_json(finding)) && (
            json::field_of(place, "artifactLocation"@) matches Some(artifact) && json::field_of(
                artifact,
                "uri"@,
            ) == Some(JsonV::Str(file)))
            &&& line >= 1 ==> json::field_of(region_json(finding), "startLine"@) == Some(
                JsonV::Whole(line),
            )
            &&& line == 0 ==> json::field_of(region_json(finding), "startLine"@) == Some(
                JsonV::Whole(1),
            )
            &&& table::lookup(fields, "col"@) == Some(
                JsonV::List(seq![JsonV::Whole(from), JsonV::Whole(to)]),
            ) && from < to < u64::MAX ==> json::field_of(region_json(finding), "startColumn"@)
                == Some(JsonV::Whole((from + 1) as u64)) && json::field_of(
                region_json(finding),
                "endColumn"@,
            ) == Some(JsonV::Whole((to + 1) as u64))
        }),
{
    broadcast use crate::table::lemma_lookup_push;

    reveal_strlit("ruleId");
    reveal_strlit("level");
    reveal_strlit("message");
    reveal_strlit("locations");
    reveal_strlit("partialFingerprints");
    reveal_strlit("physicalLocation");
    reveal_strlit("artifactLocation");
    reveal_strlit("region");
    reveal_strlit("uri");
    reveal_strlit("text");
    reveal_strlit("startLine");
    reveal_strlit("startColumn");
    reveal_strlit("endColumn");
    assert("ruleId"@.len() == 6 && "level"@.len() == 5 && "message"@.len() == 7);
    assert("locations"@.len() == 9 && "partialFingerprints"@.len() == 19);
    assert("artifactLocation"@.len() == 16 && "region"@.len() == 6);
    assert("startLine"@[0] == 's' && "endColumn"@[0] == 'e' && "startColumn"@.len() == 11);
    let finding = JsonV::Object(fields);
    let first = seq![("ruleId"@, JsonV::Str(id))];
    assert(first.skip(1) =~= seq![]);
    assert(table::lookup(first, "ruleId"@) == Some(JsonV::Str(id)));
    assert(forall|other: Text|
        other != "ruleId"@ ==> #[trigger] table::lookup(first, other) is None);
    let text = seq![("text"@, JsonV::Str(what))];
    assert(table::lookup(text, "text"@) == Some(JsonV::Str(what)));
    let uri = seq![("uri"@, JsonV::Str(file))];
    assert(table::lookup(uri, "uri"@) == Some(JsonV::Str(file)));
    let artifact = seq![("artifactLocation"@, JsonV::Object(uri))];
    assert(artifact.skip(1) =~= seq![]);
    assert(table::lookup(artifact, "artifactLocation"@) == Some(JsonV::Object(uri)));
    assert(table::lookup(artifact, "region"@) is None);
    let place = JsonV::Object(artifact.push(("region"@, region_json(finding))));
    let at = seq![("physicalLocation"@, place)];
    assert(table::lookup(at, "physicalLocation"@) == Some(place));
    let start = seq![
        (
            "startLine"@,
            JsonV::Whole(
                if line < 1 {
                    1
                } else {
                    line
                },
            ),
        ),
    ];
    assert(start.skip(1) =~= seq![]);
    assert(table::lookup(start, "startLine"@) == Some(start[0].1));
    assert(table::lookup(start, "startColumn"@) is None);
    assert(table::lookup(start, "endColumn"@) is None);
}

/// A rule that cost nothing, or that weighs nothing, is a note; one that took half
/// of its weight or more is an error; what is between is a warning.
pub proof fn lemma_level(weight: u64, deducted: u64)
    ensures
        measure::level_with(deducted, 0) || measure::below(deducted, 0) ==> level_of(
            weight,
            deducted,
        ) == "note"@,
        measure::level_with(weight, 0) || measure::below(weight, 0) ==> level_of(weight, deducted)
            == "note"@,
        measure::below(0, weight) && measure::below(0, deducted) && measure::half_of(
            deducted,
            weight,
        ) ==> level_of(weight, deducted) == "error"@,
        measure::below(0, weight) && measure::below(0, deducted) && !measure::half_of(
            deducted,
            weight,
        ) ==> level_of(weight, deducted) == "warning"@,
{
}

/// What was found in a file that is there has a result, in its place.
pub proof fn lemma_results_listed(out: Seq<JsonV>, rule: JsonV, present: Seq<(Text, ())>, n: nat)
    requires
        n <= scan::findings_of(rule).len(),
    ensures
        results_of(out, rule, present, n) == out + scan::findings_of(rule).take(n as int).filter(
            |finding: JsonV|
                text_at(finding, "file"@).len() > 0 && table::lookup(
                    present,
                    text_at(finding, "file"@),
                ) is Some,
        ).map_values(
            |finding: JsonV| result_json(scan::rule_id(rule, seq![]), rule_level(rule), finding),
        ),
    decreases n,
{
    reveal(Seq::filter);
    let findings = scan::findings_of(rule);
    let there = |finding: JsonV|
        text_at(finding, "file"@).len() > 0 && table::lookup(present, text_at(finding, "file"@))
            is Some;
    let told = |finding: JsonV|
        result_json(scan::rule_id(rule, seq![]), rule_level(rule), finding);
    let all = findings.take(n as int);
    if n > 0 {
        lemma_results_listed(out, rule, present, (n - 1) as nat);
        let front = findings.take(n - 1);
        assert(all.drop_last() =~= front);
        assert(all.last() == findings[n - 1]);
        if there(findings[n - 1]) {
            assert(front.filter(there).push(findings[n - 1]).map_values(told)
                =~= front.filter(there).map_values(told).push(told(findings[n - 1])));
            assert(out + front.filter(there).map_values(told).push(told(findings[n - 1])) =~= (out
                + front.filter(there).map_values(told)).push(told(findings[n - 1])));
        }
    } else {
        assert(out + all.filter(there).map_values(told) =~= out);
    }
}


/// A rule is described by its id, its name, what it finds, what to do about it, its
/// page and its weight.
#[verifier::rlimit(60)]
pub proof fn lemma_described(rule: JsonV)
    ensures
        ({
            let shown = descriptor_json(rule);
            let id = scan::rule_id(rule, seq![]);
            &&& json::field_of(shown, "id"@) == Some(JsonV::Str(id))
            &&& json::field_of(shown, "name"@) == Some(JsonV::Str(text_at(rule, "rule"@)))
            &&& json::field_of(shown, "shortDescription"@) == Some(
                one_text(text_at(rule, "describes"@)),
            )
            &&& text_at(rule, "remedy"@).len() > 0 ==> json::field_of(shown, "fullDescription"@)
                == Some(one_text(text_at(rule, "remedy"@)))
            &&& text_at(rule, "remedy"@).len() == 0 ==> json::field_of(shown, "fullDescription"@)
                == Some(one_text(text_at(rule, "describes"@)))
            &&& json::field_of(shown, "helpUri"@) == Some(JsonV::Str(page_of(id)))
            &&& json::field_of(properties_json(rule), "weight"@) == Some(
                JsonV::Part(number_at(rule, "weight"@)),
            )
            &&& json::field_of(properties_json(rule), "tags"@) == Some(
                JsonV::List(seq![JsonV::Str(text_at(rule, "category"@))]),
            )
        }),
{
    broadcast use crate::table::lemma_lookup_push;

    reveal_strlit("id");
    reveal_strlit("name");
    reveal_strlit("shortDescription");
    reveal_strlit("fullDescription");
    reveal_strlit("help");
    reveal_strlit("helpUri");
    reveal_strlit("defaultConfiguration");
    reveal_strlit("properties");
    reveal_strlit("tags");
    reveal_strlit("weight");
    assert("id"@.len() == 2 && "name"@.len() == 4 && "shortDescription"@.len() == 16);
    assert("fullDescription"@.len() == 15 && "help"@[0] == 'h' && "name"@[0] == 'n');
    assert("helpUri"@.len() == 7 && "help"@.len() == 4 && "properties"@.len() == 10);
    assert("defaultConfiguration"@.len() == 20 && "tags"@.len() == 4 && "weight"@.len() == 6);
    let first = seq![("id"@, JsonV::Str(scan::rule_id(rule, seq![])))];
    assert(first.skip(1) =~= seq![]);
    assert(table::lookup(first, "id"@) == Some(first[0].1));
    assert(forall|other: Text| other != "id"@ ==> #[trigger] table::lookup(first, other) is None);
    let tags = seq![("tags"@, JsonV::List(seq![JsonV::Str(text_at(rule, "category"@))]))];
    assert(tags.skip(1) =~= seq![]);
    assert(table::lookup(tags, "tags"@) == Some(tags[0].1));
}

}
