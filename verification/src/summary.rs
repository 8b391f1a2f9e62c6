//! The job summary: what somebody sees without opening anything.
//!
//! It carries the scores and the movement and what each rule cost. The findings
//! are already on the lines they belong to.

use vstd::prelude::*;

use crate::json::{self, Json, JsonV};
use crate::scan::{self, Against, Scanned};
use crate::schema::VERSION;
use crate::table;
use crate::text::{self, Text};

verus! {

/// Where the rules are described.
pub const RULES_DOC: &'static str = "https://docs.cqx.dev";

/// How many rules a summary lists.
pub const LISTED: usize = 12;

pub open spec fn mark_of(value: u64) -> Text {
    if value >= 90 {
        "🟢"@
    } else if value >= 50 {
        "🟡"@
    } else {
        "🔴"@
    }
}

fn mark(value: u64) -> (s: &'static str)
    ensures
        s@ == mark_of(value),
{
    if value >= 90 {
        "🟢"
    } else if value >= 50 {
        "🟡"
    } else {
        "🔴"
    }
}

/// What the last column of a row says.
pub open spec fn moved(was: Option<u64>, value: u64) -> Text {
    match was {
        Some(then) => if then == value {
            " — |\n"@
        } else if value > then {
            " +"@ + text::decimal_of((value - then) as nat) + " |\n"@
        } else {
            " **−"@ + text::decimal_of((then - value) as nat) + "** |\n"@
        },
        None => " |\n"@,
    }
}

pub open spec fn score_row(category: Text, value: u64, was: Option<u64>) -> Text {
    "| "@ + mark_of(value) + " "@ + category + " | **"@ + text::decimal_of(value as nat) + "** |"@
        + moved(was, value)
}

fn write_row(category: &str, value: u64, was: Option<u64>) -> (s: String)
    ensures
        s@ == score_row(category@, value, was),
{
    let mut s = text::cat5("| ", mark(value), " ", category, " | **");
    text::extend(&mut s, text::decimal(value).as_str());
    text::extend(&mut s, "** |");
    let last = match was {
        Some(then) => {
            if then == value {
                " — |\n".to_owned()
            } else if value > then {
                text::cat3(" +", text::decimal(value - then).as_str(), " |\n")
            } else {
                text::cat3(" **−", text::decimal(then - value).as_str(), "** |\n")
            }
        },
        None => " |\n".to_owned(),
    };
    text::extend(&mut s, last.as_str());
    s
}

pub open spec fn score_rows(
    out: Text,
    scores: Seq<(Text, u64)>,
    was: Seq<(Text, u64)>,
    n: nat,
) -> Text
    decreases n,
{
    if n == 0 {
        out
    } else {
        score_rows(out, scores, was, (n - 1) as nat) + score_row(
            scores[n - 1].0,
            scores[n - 1].1,
            table::lookup(was, scores[n - 1].0),
        )
    }
}

pub open spec fn cost_row(rule: JsonV, shown: Text) -> Text {
    "| [`"@ + scan::rule_id(rule, "?"@) + "`]("@ + RULES_DOC@ + ") | "@ + text::decimal_of(
        json::whole_or(json::field_of(rule, "total_findings"@), 0) as nat,
    ) + " | −"@ + shown + " |\n"@
}

fn write_cost(rule: &Json, shown: &str) -> (s: String)
    ensures
        s@ == cost_row(rule.deep_view(), shown@),
{
    let mut s = text::cat5("| [`", scan::id_of(rule, "?").as_str(), "`](", RULES_DOC, ") | ");
    text::extend(&mut s, text::decimal(rule.whole_at("total_findings", 0)).as_str());
    text::extend(&mut s, " | −");
    text::extend(&mut s, shown);
    text::extend(&mut s, " |\n");
    s
}

pub open spec fn cost_rows(
    out: Text,
    rules: Seq<JsonV>,
    shown: Seq<Text>,
    order: Seq<usize>,
    n: nat,
) -> Text
    decreases n,
{
    if n == 0 {
        out
    } else {
        cost_rows(out, rules, shown, order, (n - 1) as nat) + cost_row(
            rules[order[n - 1] as int],
            shown[order[n - 1] as int],
        )
    }
}

/// The rules that cost something, worst first, folded away.
pub open spec fn details(out: Text, rules: Seq<JsonV>, shown: Seq<Text>) -> Text {
    let order = scan::costly(rules, rules.len());
    if order.len() == 0 {
        out
    } else {
        cost_rows(
            out
                + "\n<details><summary>What it cost</summary>\n\n| rule | findings | cost |\n|---|--:|--:|\n"@,
            rules,
            shown,
            order,
            if order.len() < LISTED {
                order.len()
            } else {
                LISTED as nat
            },
        ) + "\n</details>\n"@
    }
}

pub open spec fn heading(against: Option<Against>) -> Text {
    match against {
        Some(a) => "## CodeQuality Score\n\n"@ + "| | score | against `"@ + a.reference@
            + "` |\n|---|--:|--:|\n"@,
        None => "## CodeQuality Score\n\n"@ + "| | score |\n|---|--:|\n"@,
    }
}

pub open spec fn summary_of(
    here: Scanned,
    secs: Text,
    shown: Seq<Text>,
    against: Option<Against>,
) -> Text {
    let report = here.report.deep_view();
    let scores = scan::scores_of(report);
    details(
        score_rows(heading(against), scores, scan::were(against), scores.len()) + "\n"@
            + text::decimal_of(here.files as nat) + " files · "@ + text::decimal_of(
            here.lines as nat,
        ) + " lines · "@ + secs + "s · cqx "@ + VERSION@ + "\n"@,
        scan::rules_of(report),
        shown,
    )
}

fn add_details(out: &mut String, rules: &Vec<Json>, shown: &Vec<String>)
    requires
        shown@.len() == rules@.len(),
    ensures
        final(out)@ == details(old(out)@, rules.deep_view(), shown.deep_view()),
{
    let order = scan::rank_costly(rules);
    if order.len() == 0 {
        return;
    }
    text::extend(
        out,
        "\n<details><summary>What it cost</summary>\n\n| rule | findings | cost |\n|---|--:|--:|\n",
    );
    let ghost start = out@;
    let mut i: usize = 0;
    while i < order.len() && i < LISTED
        invariant
            i <= order.len(),
            i <= LISTED,
            shown@.len() == rules@.len(),
            forall|k: int| 0 <= k < order@.len() ==> #[trigger] order@[k] < rules@.len(),
            out@ == cost_rows(start, rules.deep_view(), shown.deep_view(), order@, i as nat),
        decreases LISTED - i,
    {
        let at: usize = order[i];
        assert(rules.deep_view()[at as int] == rules@[at as int].deep_view());
        assert(shown.deep_view()[at as int] == shown@[at as int]@);
        text::extend(out, write_cost(&rules[at], shown[at].as_str()).as_str());
        i += 1;
    }
    text::extend(out, "\n</details>\n");
}

/// The summary of a scan that took so many seconds, given what each rule of its
/// report deducted, to one place.
pub fn build(here: &Scanned, secs: &str, shown: &Vec<String>, against: &Option<Against>) -> (out:
    String)
    requires
        shown@.len() == scan::rules_of(here.report.deep_view()).len(),
    ensures
        out@ == summary_of(*here, secs@, shown.deep_view(), *against),
{
    let mut out = match against {
        Some(a) => text::cat4(
            "## CodeQuality Score\n\n",
            "| | score | against `",
            a.reference,
            "` |\n|---|--:|--:|\n",
        ),
        None => text::cat("## CodeQuality Score\n\n", "| | score |\n|---|--:|\n"),
    };
    let was = scan::was_by_category(against);
    let scores = here.scores();
    let mut i: usize = 0;
    while i < scores.len()
        invariant
            i <= scores.len(),
            out@ == score_rows(heading(*against), scores.deep_view(), was.deep_view(), i as nat),
        decreases scores.len() - i,
    {
        assert(scores.deep_view()[i as int] == scores@[i as int].deep_view());
        let then: Option<u64> = match was.get(scores[i].0.as_str()) {
            Some(then) => Some(*then),
            None => None,
        };
        text::extend(
            &mut out,
            write_row(scores[i].0.as_str(), scores[i].1, then).as_str(),
        );
        i += 1;
    }
    text::extend(&mut out, "\n");
    text::extend(&mut out, text::decimal(here.files as u64).as_str());
    text::extend(&mut out, " files · ");
    text::extend(&mut out, text::decimal(here.lines).as_str());
    text::extend(&mut out, " lines · ");
    text::extend(&mut out, secs);
    text::extend(&mut out, "s · cqx ");
    text::extend(&mut out, VERSION);
    text::extend(&mut out, "\n");
    let none: Vec<Json> = Vec::new();
    assert(none.deep_view() =~= seq![]);
    let rules: &Vec<Json> = match here.report.get("rules") {
        Some(held) => match held.as_list() {
            Some(rules) => rules,
            None => &none,
        },
        None => &none,
    };
    assert(rules.deep_view() == scan::rules_of(here.report.deep_view()));
    add_details(&mut out, rules, shown);
    out
}

// --- what a summary says -----------------------------------------------------

/// A category is green from ninety on, yellow from fifty on, and else red; its row
/// shows its score, and by how much that moved.
pub proof fn lemma_row_said(category: Text, value: u64, was: u64)
    ensures
        value >= 90 ==> text::has_prefix(score_row(category, value, None), "| 🟢 "@),
        50 <= value < 90 ==> text::has_prefix(score_row(category, value, None), "| 🟡 "@),
        value < 50 ==> text::has_prefix(score_row(category, value, None), "| 🔴 "@),
        text::has_part(
            score_row(category, value, Some(was)),
            category + " | **"@ + text::decimal_of(value as nat) + "** |"@,
        ),
        value > was ==> text::has_suffix(
            score_row(category, value, Some(was)),
            " +"@ + text::decimal_of((value - was) as nat) + " |\n"@,
        ),
        value < was ==> text::has_suffix(
            score_row(category, value, Some(was)),
            " **−"@ + text::decimal_of((was - value) as nat) + "** |\n"@,
        ),
        value == was ==> text::has_suffix(score_row(category, value, Some(was)), " — |\n"@),
{
    reveal_strlit("| 🟢 ");
    reveal_strlit("| 🟡 ");
    reveal_strlit("| 🔴 ");
    reveal_strlit("🟢");
    reveal_strlit("🟡");
    reveal_strlit("🔴");
    reveal_strlit("| ");
    reveal_strlit(" ");
    let alone = score_row(category, value, None);
    let lead = "| "@ + mark_of(value) + " "@;
    assert(alone.subrange(0, lead.len() as int) =~= lead);
    if value >= 90 {
        assert("| "@ + "🟢"@ + " "@ =~= "| 🟢 "@);
    } else if value >= 50 {
        assert("| "@ + "🟡"@ + " "@ =~= "| 🟡 "@);
    } else {
        assert("| "@ + "🔴"@ + " "@ =~= "| 🔴 "@);
    }
    let row = score_row(category, value, Some(was));
    let tail = moved(Some(was), value);
    assert(row.subrange(row.len() - tail.len(), row.len() as int) =~= tail);
    let part = category + " | **"@ + text::decimal_of(value as nat) + "** |"@;
    let at = lead.len() as int;
    assert(row.subrange(at, at + part.len()) =~= part);
    assert(text::occurs_at(row, part, at));
}

}
