//! Which way a change to the rules moves, and who is allowed to move it.
//!
//! An agent may tighten a constraint; only a person may loosen one. Whatever
//! cannot be shown to be a tightening is unclear, and unclear is refused for an
//! agent exactly as a loosening is.

use vstd::multiset::Multiset;
use vstd::prelude::*;

use crate::config::{Config, ConfigV, Rule, RuleV};
use crate::measure::{self, Real, RealV};
use crate::table::{self, Names, Table};
use crate::text::{self, Text};

verus! {

/// Which way a single change moves the standard.
#[derive(Debug, Clone, Copy, PartialEq, Eq, Structural)]
pub enum Direction {
    /// Strictly harder to pass. An agent may make this change.
    Tighter,
    /// Strictly easier to pass. A person may make this change; an agent may
    /// not.
    Looser,
    /// Could be either, or is not a standard at all.
    Unclear,
}

impl Direction {
    pub fn name(self) -> (s: &'static str)
        ensures
            s@ == (match self {
                Direction::Tighter => "tighter"@,
                Direction::Looser => "looser"@,
                Direction::Unclear => "unclear"@,
            }),
    {
        match self {
            Direction::Tighter => "tighter",
            Direction::Looser => "looser",
            Direction::Unclear => "unclear",
        }
    }
}

/// One field, moved.
#[derive(Debug)]
pub struct Change {
    /// The rule, or nothing for a change to the configuration as a whole.
    pub rule: String,
    pub field: String,
    pub before: String,
    pub after: String,
    pub direction: Direction,
    /// Why it is that direction, in a clause.
    pub why: String,
}

pub struct ChangeV {
    pub rule: Text,
    pub field: Text,
    pub before: Text,
    pub after: Text,
    pub direction: Direction,
    pub why: Text,
}

impl DeepView for Change {
    type V = ChangeV;

    open spec fn deep_view(&self) -> ChangeV {
        ChangeV {
            rule: self.rule@,
            field: self.field@,
            before: self.before@,
            after: self.after@,
            direction: self.direction,
            why: self.why@,
        }
    }
}

impl Change {
    pub fn copy(&self) -> (c: Change)
        ensures
            c.deep_view() == self.deep_view(),
    {
        Change {
            rule: self.rule.clone(),
            field: self.field.clone(),
            before: self.before.clone(),
            after: self.after.clone(),
            direction: self.direction,
            why: self.why.clone(),
        }
    }
}

pub open spec fn change(
    rule: Text,
    field: Text,
    before: Text,
    after: Text,
    direction: Direction,
    why: Text,
) -> ChangeV {
    ChangeV { rule, field, before, after, direction, why }
}

fn note(
    out: &mut Vec<Change>,
    rule: &str,
    field: &str,
    before: &str,
    after: &str,
    direction: Direction,
    why: &str,
)
    ensures
        final(out).deep_view() == old(out).deep_view().push(
            change(rule@, field@, before@, after@, direction, why@),
        ),
{
    text::push(
        out,
        Change {
            rule: rule.to_owned(),
            field: field.to_owned(),
            before: before.to_owned(),
            after: after.to_owned(),
            direction,
            why: why.to_owned(),
        },
    );
}

// --- the configuration as a whole --------------------------------------------

/// The floor. Raising it is a tightening though it changes no rule.
pub open spec fn floor_moved(before: Option<u32>, after: Option<u32>) -> Seq<ChangeV> {
    match (before, after) {
        (None, None) => seq![],
        (None, Some(n)) => seq![
            change(
                seq![],
                "min_score"@,
                "none"@,
                text::decimal_of(n as nat),
                Direction::Tighter,
                "a run that could not fail on score now can"@,
            ),
        ],
        (Some(n), None) => seq![
            change(
                seq![],
                "min_score"@,
                text::decimal_of(n as nat),
                "none"@,
                Direction::Looser,
                "removing the floor means no score can fail a run"@,
            ),
        ],
        (Some(a), Some(b)) => if a == b {
            seq![]
        } else {
            seq![
                change(
                    seq![],
                    "min_score"@,
                    text::decimal_of(a as nat),
                    text::decimal_of(b as nat),
                    if b > a {
                        Direction::Tighter
                    } else {
                        Direction::Looser
                    },
                    if b > a {
                        "a higher floor refuses more"@
                    } else {
                        "a lower floor refuses less"@
                    },
                ),
            ]
        },
    }
}

fn move_floor(before: Option<u32>, after: Option<u32>) -> (out: Vec<Change>)
    ensures
        out.deep_view() == floor_moved(before, after),
{
    let mut out: Vec<Change> = Vec::new();
    assert(out.deep_view() =~= seq![]);
    match (before, after) {
        (None, None) => {},
        (None, Some(n)) => note(
            &mut out,
            text::empty().as_str(),
            "min_score",
            "none",
            text::decimal(n as u64).as_str(),
            Direction::Tighter,
            "a run that could not fail on score now can",
        ),
        (Some(n), None) => note(
            &mut out,
            text::empty().as_str(),
            "min_score",
            text::decimal(n as u64).as_str(),
            "none",
            Direction::Looser,
            "removing the floor means no score can fail a run",
        ),
        (Some(a), Some(b)) => {
            if a != b {
                let higher = b > a;
                note(
                    &mut out,
                    text::empty().as_str(),
                    "min_score",
                    text::decimal(a as u64).as_str(),
                    text::decimal(b as u64).as_str(),
                    if higher {
                        Direction::Tighter
                    } else {
                        Direction::Looser
                    },
                    if higher {
                        "a higher floor refuses more"
                    } else {
                        "a lower floor refuses less"
                    },
                );
            }
        },
    }
    out
}

/// Paths that are excluded now and were not, the first `n`. Code that is not
/// measured cannot fail.
pub open spec fn excluded_now(out: Seq<ChangeV>, after: Seq<Text>, before: Seq<Text>, n: nat) -> Seq<
    ChangeV,
>
    decreases n,
{
    if n == 0 {
        out
    } else {
        let so_far = excluded_now(out, after, before, (n - 1) as nat);
        if before.contains(after[n - 1]) {
            so_far
        } else {
            so_far.push(
                change(
                    seq![],
                    "exclude"@,
                    "measured"@,
                    after[n - 1],
                    Direction::Looser,
                    "excluded code is not scored, so nothing in it can fail"@,
                ),
            )
        }
    }
}

/// Paths that were excluded and are not now, the first `n`.
pub open spec fn measured_now(out: Seq<ChangeV>, before: Seq<Text>, after: Seq<Text>, n: nat) -> Seq<
    ChangeV,
>
    decreases n,
{
    if n == 0 {
        out
    } else {
        let so_far = measured_now(out, before, after, (n - 1) as nat);
        if after.contains(before[n - 1]) {
            so_far
        } else {
            so_far.push(
                change(
                    seq![],
                    "exclude"@,
                    before[n - 1],
                    "measured"@,
                    Direction::Tighter,
                    "code that was not scored now is"@,
                ),
            )
        }
    }
}

fn move_paths(out: &mut Vec<Change>, before: &Vec<String>, after: &Vec<String>)
    ensures
        final(out).deep_view() == measured_now(
            excluded_now(
                old(out).deep_view(),
                after.deep_view(),
                before.deep_view(),
                after@.len(),
            ),
            before.deep_view(),
            after.deep_view(),
            before@.len(),
        ),
{
    let ghost start = out.deep_view();
    let mut i: usize = 0;
    while i < after.len()
        invariant
            i <= after.len(),
            out.deep_view() == excluded_now(
                start,
                after.deep_view(),
                before.deep_view(),
                i as nat,
            ),
        decreases after.len() - i,
    {
        assert(after.deep_view()[i as int] == after@[i as int]@);
        if !text::lists(before, after[i].as_str()) {
            note(
                out,
                text::empty().as_str(),
                "exclude",
                "measured",
                after[i].as_str(),
                Direction::Looser,
                "excluded code is not scored, so nothing in it can fail",
            );
        }
        i += 1;
    }
    let ghost middle = out.deep_view();
    let mut j: usize = 0;
    while j < before.len()
        invariant
            j <= before.len(),
            out.deep_view() == measured_now(
                middle,
                before.deep_view(),
                after.deep_view(),
                j as nat,
            ),
        decreases before.len() - j,
    {
        assert(before.deep_view()[j as int] == before@[j as int]@);
        if !text::lists(after, before[j].as_str()) {
            note(
                out,
                text::empty().as_str(),
                "exclude",
                before[j].as_str(),
                "measured",
                Direction::Tighter,
                "code that was not scored now is",
            );
        }
        j += 1;
    }
}

// --- one rule ----------------------------------------------------------------

pub open spec fn noted(out: Seq<ChangeV>, holds: bool, c: ChangeV) -> Seq<ChangeV> {
    if holds {
        out.push(c)
    } else {
        out
    }
}

pub open spec fn differ(a: RealV, b: RealV) -> bool {
    !measure::level_with(a.bits, b.bits)
}

pub open spec fn truth(b: bool) -> Text {
    if b {
        "true"@
    } else {
        "false"@
    }
}

pub open spec fn pick(tighter: bool) -> Direction {
    if tighter {
        Direction::Tighter
    } else {
        Direction::Looser
    }
}

pub open spec fn worded(tighter: bool, yes: Text, no: Text) -> Text {
    if tighter {
        yes
    } else {
        no
    }
}

/// Whether a rule is on. What was off and is on is checked now.
pub open spec fn enabled_moved(out: Seq<ChangeV>, name: Text, a: RuleV, b: RuleV) -> Seq<ChangeV> {
    noted(
        out,
        a.enabled != b.enabled,
        change(
            name,
            "enabled"@,
            truth(a.enabled),
            truth(b.enabled),
            pick(b.enabled),
            worded(b.enabled, "a rule that was off is now on"@, "a rule that was on is now off"@),
        ),
    )
}

/// The weight is the most a rule can deduct, so more of it is more at stake.
pub open spec fn weight_moved(out: Seq<ChangeV>, name: Text, a: RuleV, b: RuleV) -> Seq<ChangeV> {
    let more = measure::below(a.weight.bits, b.weight.bits);
    noted(
        out,
        differ(a.weight, b.weight),
        change(
            name,
            "weight"@,
            a.weight.text,
            b.weight.text,
            pick(more),
            worded(more, "more points are at stake"@, "fewer points are at stake"@),
        ),
    )
}

/// `free` is how much costs nothing. Less of it is less tolerance.
pub open spec fn free_moved(out: Seq<ChangeV>, name: Text, a: RuleV, b: RuleV) -> Seq<ChangeV> {
    let less = measure::below(b.free.bits, a.free.bits);
    noted(
        out,
        differ(a.free, b.free),
        change(
            name,
            "free"@,
            a.free.text,
            b.free.text,
            pick(less),
            worded(less, "less is tolerated for free"@, "more is tolerated for free"@),
        ),
    )
}

/// `full` is where the whole weight is deducted. Reaching it sooner is
/// steeper.
pub open spec fn full_moved(out: Seq<ChangeV>, name: Text, a: RuleV, b: RuleV) -> Seq<ChangeV> {
    let less = measure::below(b.full.bits, a.full.bits);
    noted(
        out,
        differ(a.full, b.full),
        change(
            name,
            "full"@,
            a.full.text,
            b.full.text,
            pick(less),
            worded(
                less,
                "the full deduction arrives sooner"@,
                "the full deduction arrives later"@,
            ),
        ),
    )
}

/// A ramp that runs backwards is not a stricter ramp but a broken one.
pub open spec fn backwards(out: Seq<ChangeV>, name: Text, a: RuleV, b: RuleV) -> Seq<ChangeV> {
    noted(
        out,
        measure::below(b.full.bits, b.free.bits),
        change(
            name,
            "free"@,
            a.free.text + " ≤ "@ + a.full.text,
            b.free.text + " > "@ + b.full.text,
            Direction::Unclear,
            "free must not exceed full; the ramp would run backwards"@,
        ),
    )
}

pub open spec fn same_param(a: Option<RealV>, b: Option<RealV>) -> bool {
    match (a, b) {
        (Some(a), Some(b)) => measure::level_with(a.bits, b.bits),
        (None, None) => true,
        _ => false,
    }
}

pub open spec fn param_text(a: Option<RealV>) -> Text {
    match a {
        Some(a) => a.text,
        None => "unset"@,
    }
}

/// The names two tables have between them, in order and each once.
pub open spec fn both<V>(a: Seq<(Text, V)>, b: Seq<(Text, V)>) -> Seq<(Text, ())> {
    with_names(with_names(seq![], a, a.len()), b, b.len())
}

pub open spec fn with_names<V>(out: Seq<(Text, ())>, rows: Seq<(Text, V)>, n: nat) -> Seq<(Text, ())>
    decreases n,
{
    if n == 0 {
        out
    } else {
        table::put(with_names(out, rows, (n - 1) as nat), rows[n - 1].0, ())
    }
}

fn add_names<V: DeepView>(out: &mut Names, rows: &Table<V>)
    ensures
        final(out).deep_view() == with_names(
            old(out).deep_view(),
            rows.deep_view(),
            rows.deep_view().len(),
        ),
{
    let ghost start = out.deep_view();
    let end: usize = rows.len();
    let mut i: usize = 0;
    while i < end
        invariant
            i <= end == rows.deep_view().len(),
            out.deep_view() == with_names(start, rows.deep_view(), i as nat),
        decreases end - i,
    {
        let _ = out.insert(rows.name_at(i).clone(), ());
        i += 1;
    }
}

/// The parameters under the first `n` names. Which way one tightens depends on
/// what it measures, which only the rule knows.
pub open spec fn params_moved(
    out: Seq<ChangeV>,
    name: Text,
    a: Seq<(Text, RealV)>,
    b: Seq<(Text, RealV)>,
    names: Seq<(Text, ())>,
    n: nat,
) -> Seq<ChangeV>
    decreases n,
{
    if n == 0 {
        out
    } else {
        let key = names[n - 1].0;
        let was = table::lookup(a, key);
        let now = table::lookup(b, key);
        noted(
            params_moved(out, name, a, b, names, (n - 1) as nat),
            !same_param(was, now),
            change(
                name,
                "params."@ + key,
                param_text(was),
                param_text(now),
                Direction::Unclear,
                "which way a parameter tightens depends on what it measures"@,
            ),
        )
    }
}

pub open spec fn category_moved(out: Seq<ChangeV>, name: Text, a: RuleV, b: RuleV) -> Seq<ChangeV> {
    noted(
        out,
        a.category != b.category,
        change(
            name,
            "category"@,
            a.category,
            b.category,
            Direction::Unclear,
            "the deduction moves to a different score"@,
        ),
    )
}

/// Every difference between two forms of one rule, in the order in which a rule
/// declares its fields.
pub open spec fn rule_moved(out: Seq<ChangeV>, name: Text, a: RuleV, b: RuleV) -> Seq<ChangeV> {
    let names = both(a.params, b.params);
    let out = category_moved(out, name, a, b);
    let out = weight_moved(out, name, a, b);
    let out = free_moved(out, name, a, b);
    let out = backwards(out, name, a, b);
    let out = full_moved(out, name, a, b);
    let out = enabled_moved(out, name, a, b);
    params_moved(out, name, a.params, b.params, names, names.len())
}

fn shown(b: bool) -> (s: &'static str)
    ensures
        s@ == truth(b),
{
    if b {
        "true"
    } else {
        "false"
    }
}

fn direction(tighter: bool) -> (d: Direction)
    ensures
        d == pick(tighter),
{
    if tighter {
        Direction::Tighter
    } else {
        Direction::Looser
    }
}

fn compare_params(
    name: &str,
    a: &Table<Real>,
    b: &Table<Real>,
    out: &mut Vec<Change>,
)
    ensures
        final(out).deep_view() == ({
            let names = both(a.deep_view(), b.deep_view());
            params_moved(
                old(out).deep_view(),
                name@,
                a.deep_view(),
                b.deep_view(),
                names,
                names.len(),
            )
        }),
{
    let ghost start = out.deep_view();
    let mut names: Names = Table::new();
    add_names(&mut names, a);
    add_names(&mut names, b);
    let end: usize = names.len();
    let mut i: usize = 0;
    while i < end
        invariant
            i <= end == names.deep_view().len(),
            out.deep_view() == params_moved(
                start,
                name@,
                a.deep_view(),
                b.deep_view(),
                names.deep_view(),
                i as nat,
            ),
        decreases end - i,
    {
        let key = names.name_at(i).as_str();
        let was = a.get(key);
        let now = b.get(key);
        let same = match (was, now) {
            (Some(x), Some(y)) => measure::is_level(x.bits, y.bits),
            (None, None) => true,
            _ => false,
        };
        if !same {
            let from = match was {
                Some(x) => x.text.clone(),
                None => "unset".to_owned(),
            };
            let to = match now {
                Some(x) => x.text.clone(),
                None => "unset".to_owned(),
            };
            note(
                out,
                name,
                text::cat("params.", key).as_str(),
                from.as_str(),
                to.as_str(),
                Direction::Unclear,
                "which way a parameter tightens depends on what it measures",
            );
        }
        i += 1;
    }
}

/// Adds every difference between two forms of one rule.
pub fn rule(name: &str, a: &Rule, b: &Rule, out: &mut Vec<Change>)
    ensures
        final(out).deep_view() == rule_moved(
            old(out).deep_view(),
            name@,
            a.deep_view(),
            b.deep_view(),
        ),
{
    if !text::same(a.category.as_str(), b.category.as_str()) {
        note(
            out,
            name,
            "category",
            a.category.as_str(),
            b.category.as_str(),
            Direction::Unclear,
            "the deduction moves to a different score",
        );
    }
    if !measure::is_level(a.weight.bits, b.weight.bits) {
        let more = measure::is_below(a.weight.bits, b.weight.bits);
        let why = if more {
            "more points are at stake"
        } else {
            "fewer points are at stake"
        };
        let d = direction(more);
        note(out, name, "weight", a.weight.text.as_str(), b.weight.text.as_str(), d, why);
    }
    if !measure::is_level(a.free.bits, b.free.bits) {
        let less = measure::is_below(b.free.bits, a.free.bits);
        let why = if less {
            "less is tolerated for free"
        } else {
            "more is tolerated for free"
        };
        let d = direction(less);
        note(out, name, "free", a.free.text.as_str(), b.free.text.as_str(), d, why);
    }
    if measure::is_below(b.full.bits, b.free.bits) {
        note(
            out,
            name,
            "free",
            text::cat3(a.free.text.as_str(), " ≤ ", a.full.text.as_str()).as_str(),
            text::cat3(b.free.text.as_str(), " > ", b.full.text.as_str()).as_str(),
            Direction::Unclear,
            "free must not exceed full; the ramp would run backwards",
        );
    }
    if !measure::is_level(a.full.bits, b.full.bits) {
        let less = measure::is_below(b.full.bits, a.full.bits);
        let why = if less {
            "the full deduction arrives sooner"
        } else {
            "the full deduction arrives later"
        };
        let d = direction(less);
        note(out, name, "full", a.full.text.as_str(), b.full.text.as_str(), d, why);
    }
    if a.enabled != b.enabled {
        let why = if b.enabled {
            "a rule that was off is now on"
        } else {
            "a rule that was on is now off"
        };
        let d = direction(b.enabled);
        note(out, name, "enabled", shown(a.enabled), shown(b.enabled), d, why);
    }
    compare_params(name, &a.params, &b.params, out);
}

// --- everything --------------------------------------------------------------

/// What became of one rule. One that was not there and is on is more checking;
/// one that is off changes nothing; one that has gone falls back to a default
/// that cannot be seen from here.
pub open spec fn named_moved(
    out: Seq<ChangeV>,
    name: Text,
    before: Seq<(Text, RuleV)>,
    after: Seq<(Text, RuleV)>,
) -> Seq<ChangeV> {
    match (table::lookup(before, name), table::lookup(after, name)) {
        (Some(a), Some(b)) => rule_moved(out, name, a, b),
        (None, Some(b)) => noted(
            out,
            b.enabled,
            change(
                name,
                "rule"@,
                "absent"@,
                "enabled"@,
                Direction::Tighter,
                "a rule that was not being applied now is"@,
            ),
        ),
        (Some(_), None) => out.push(
            change(
                name,
                "rule"@,
                "present"@,
                "absent"@,
                Direction::Unclear,
                "a removed rule falls back to a default this cannot see"@,
            ),
        ),
        (None, None) => out,
    }
}

pub open spec fn rules_moved(
    out: Seq<ChangeV>,
    before: Seq<(Text, RuleV)>,
    after: Seq<(Text, RuleV)>,
    names: Seq<(Text, ())>,
    n: nat,
) -> Seq<ChangeV>
    decreases n,
{
    if n == 0 {
        out
    } else {
        named_moved(
            rules_moved(out, before, after, names, (n - 1) as nat),
            names[n - 1].0,
            before,
            after,
        )
    }
}

/// Every difference between two configurations: of the configuration first,
/// then of the rules in order.
pub open spec fn differences(before: ConfigV, after: ConfigV) -> Seq<ChangeV> {
    let names = both(before.rules, after.rules);
    let out = floor_moved(before.min_score, after.min_score);
    let out = excluded_now(out, after.exclude, before.exclude, after.exclude.len());
    let out = measured_now(out, before.exclude, after.exclude, before.exclude.len());
    rules_moved(out, before.rules, after.rules, names, names.len())
}

pub fn compare(before: &Config, after: &Config) -> (out: Vec<Change>)
    ensures
        out.deep_view() == differences(before.deep_view(), after.deep_view()),
{
    let mut out = move_floor(before.min_score, after.min_score);
    move_paths(&mut out, &before.exclude, &after.exclude);
    let mut names: Names = Table::new();
    add_names(&mut names, &before.rules);
    add_names(&mut names, &after.rules);
    let ghost start = out.deep_view();
    let end: usize = names.len();
    let mut i: usize = 0;
    while i < end
        invariant
            i <= end == names.deep_view().len(),
            out.deep_view() == rules_moved(
                start,
                before.rules.deep_view(),
                after.rules.deep_view(),
                names.deep_view(),
                i as nat,
            ),
        decreases end - i,
    {
        let name = names.name_at(i).as_str();
        match (before.rules.get(name), after.rules.get(name)) {
            (Some(a), Some(b)) => rule(name, a, b, &mut out),
            (None, Some(b)) => {
                if b.enabled {
                    note(
                        &mut out,
                        name,
                        "rule",
                        "absent",
                        "enabled",
                        Direction::Tighter,
                        "a rule that was not being applied now is",
                    );
                }
            },
            (Some(_), None) => note(
                &mut out,
                name,
                "rule",
                "present",
                "absent",
                Direction::Unclear,
                "a removed rule falls back to a default this cannot see",
            ),
            (None, None) => {},
        }
        i += 1;
    }
    out
}

/// Something changed, and every change is a tightening.
pub open spec fn all_tighten(changes: Seq<ChangeV>) -> bool {
    changes.len() > 0 && forall|i: int|
        0 <= i < changes.len() ==> (#[trigger] changes[i]).direction == Direction::Tighter
}

/// Whether a proposal is one an agent may apply on its own. One that changes
/// nothing is not.
pub fn tightens(changes: &Vec<Change>) -> (r: bool)
    ensures
        r == all_tighten(changes.deep_view()),
{
    if changes.len() == 0 {
        return false;
    }
    let mut i: usize = 0;
    while i < changes.len()
        invariant
            i <= changes.len(),
            forall|k: int|
                0 <= k < i ==> (#[trigger] changes.deep_view()[k]).direction == Direction::Tighter,
        decreases changes.len() - i,
    {
        if changes[i].direction != Direction::Tighter {
            assert(changes.deep_view()[i as int].direction != Direction::Tighter);
            return false;
        }
        i += 1;
    }
    true
}

/// The first `n` changes without the tightenings.
pub open spec fn objected(changes: Seq<ChangeV>, n: nat) -> Seq<ChangeV>
    decreases n,
{
    if n == 0 {
        seq![]
    } else {
        noted(
            objected(changes, (n - 1) as nat),
            changes[n - 1].direction != Direction::Tighter,
            changes[n - 1],
        )
    }
}

/// The changes that are not tightenings, which is what a refusal lists.
pub fn objections(changes: &Vec<Change>) -> (out: Vec<Change>)
    ensures
        out.deep_view() == objected(changes.deep_view(), changes@.len()),
{
    let mut out: Vec<Change> = Vec::new();
    assert(out.deep_view() =~= seq![]);
    let mut i: usize = 0;
    while i < changes.len()
        invariant
            i <= changes.len(),
            out.deep_view() == objected(changes.deep_view(), i as nat),
        decreases changes.len() - i,
    {
        assert(changes.deep_view()[i as int] == changes@[i as int].deep_view());
        if changes[i].direction != Direction::Tighter {
            text::push(&mut out, changes[i].copy());
        }
        i += 1;
    }
    out
}

// --- what holds of every comparison -------------------------------------------

spec fn all_tight(changes: Seq<ChangeV>) -> bool {
    forall|i: int|
        0 <= i < changes.len() ==> (#[trigger] changes[i]).direction == Direction::Tighter
}

proof fn lemma_noted(out: Seq<ChangeV>, holds: bool, c: ChangeV)
    requires
        all_tight(noted(out, holds, c)),
    ensures
        all_tight(out),
        holds ==> c.direction == Direction::Tighter,
{
    let after = noted(out, holds, c);
    assert forall|i: int| 0 <= i < out.len() implies (#[trigger] out[i]).direction
        == Direction::Tighter by {
        assert(after[i] == out[i]);
    }
    if holds {
        assert(after[out.len() as int] == c);
    }
}

proof fn lemma_params_tight(
    out: Seq<ChangeV>,
    name: Text,
    a: Seq<(Text, RealV)>,
    b: Seq<(Text, RealV)>,
    names: Seq<(Text, ())>,
    n: nat,
)
    requires
        n <= names.len(),
        all_tight(params_moved(out, name, a, b, names, n)),
    ensures
        all_tight(out),
        forall|k: int|
            0 <= k < n ==> same_param(
                table::lookup(a, (#[trigger] names[k]).0),
                table::lookup(b, names[k].0),
            ),
    decreases n,
{
    if n > 0 {
        let key = names[n - 1].0;
        let was = table::lookup(a, key);
        let now = table::lookup(b, key);
        lemma_noted(
            params_moved(out, name, a, b, names, (n - 1) as nat),
            !same_param(was, now),
            change(
                name,
                "params."@ + key,
                param_text(was),
                param_text(now),
                Direction::Unclear,
                "which way a parameter tightens depends on what it measures"@,
            ),
        );
        lemma_params_tight(out, name, a, b, names, (n - 1) as nat);
    }
}

proof fn lemma_names_kept<V>(out: Seq<(Text, ())>, rows: Seq<(Text, V)>, n: nat, key: Text)
    requires
        n <= rows.len(),
    ensures
        table::lookup(out, key) is Some ==> table::lookup(with_names(out, rows, n), key) is Some,
        (exists|k: int| 0 <= k < n && (#[trigger] rows[k]).0 == key) ==> table::lookup(
            with_names(out, rows, n),
            key,
        ) is Some,
    decreases n,
{
    if n > 0 {
        lemma_names_kept(out, rows, (n - 1) as nat, key);
        table::lemma_put_lookup(with_names(out, rows, (n - 1) as nat), rows[n - 1].0, (), key);
    }
}

/// Every name that either table has is among those of both.
proof fn lemma_both<V>(a: Seq<(Text, V)>, b: Seq<(Text, V)>, key: Text) -> (k: int)
    requires
        table::lookup(a, key) is Some || table::lookup(b, key) is Some,
    ensures
        0 <= k < both(a, b).len(),
        both(a, b)[k].0 == key,
{
    let first = with_names(seq![], a, a.len());
    if table::lookup(a, key) is Some {
        let at = table::lemma_lookup_stands(a, key);
        lemma_names_kept(seq![], a, a.len(), key);
    } else {
        let at = table::lemma_lookup_stands(b, key);
    }
    lemma_names_kept(first, b, b.len(), key);
    table::lemma_lookup_stands(both(a, b), key)
}

/// What each field of a rule may do where nothing but tightening happens.
spec fn only_tighter(a: RuleV, b: RuleV) -> bool {
    &&& a.enabled ==> b.enabled
    &&& differ(a.weight, b.weight) ==> measure::below(a.weight.bits, b.weight.bits)
    &&& differ(a.free, b.free) ==> measure::below(b.free.bits, a.free.bits)
    &&& differ(a.full, b.full) ==> measure::below(b.full.bits, a.full.bits)
    &&& !measure::below(b.full.bits, b.free.bits)
    &&& a.category == b.category
    &&& forall|key: Text|
        same_param(#[trigger] table::lookup(a.params, key), table::lookup(b.params, key))
}

proof fn lemma_rule_tight(out: Seq<ChangeV>, name: Text, a: RuleV, b: RuleV)
    requires
        all_tight(rule_moved(out, name, a, b)),
    ensures
        all_tight(out),
        only_tighter(a, b),
{
    let names = both(a.params, b.params);
    let one = category_moved(out, name, a, b);
    let two = weight_moved(one, name, a, b);
    let three = free_moved(two, name, a, b);
    let four = backwards(three, name, a, b);
    let five = full_moved(four, name, a, b);
    let six = enabled_moved(five, name, a, b);
    lemma_params_tight(six, name, a.params, b.params, names, names.len());
    lemma_noted(
        five,
        a.enabled != b.enabled,
        change(
            name,
            "enabled"@,
            truth(a.enabled),
            truth(b.enabled),
            pick(b.enabled),
            worded(b.enabled, "a rule that was off is now on"@, "a rule that was on is now off"@),
        ),
    );
    let less = measure::below(b.full.bits, a.full.bits);
    lemma_noted(
        four,
        differ(a.full, b.full),
        change(
            name,
            "full"@,
            a.full.text,
            b.full.text,
            pick(less),
            worded(
                less,
                "the full deduction arrives sooner"@,
                "the full deduction arrives later"@,
            ),
        ),
    );
    lemma_noted(
        three,
        measure::below(b.full.bits, b.free.bits),
        change(
            name,
            "free"@,
            a.free.text + " ≤ "@ + a.full.text,
            b.free.text + " > "@ + b.full.text,
            Direction::Unclear,
            "free must not exceed full; the ramp would run backwards"@,
        ),
    );
    let less = measure::below(b.free.bits, a.free.bits);
    lemma_noted(
        two,
        differ(a.free, b.free),
        change(
            name,
            "free"@,
            a.free.text,
            b.free.text,
            pick(less),
            worded(less, "less is tolerated for free"@, "more is tolerated for free"@),
        ),
    );
    let more = measure::below(a.weight.bits, b.weight.bits);
    lemma_noted(
        one,
        differ(a.weight, b.weight),
        change(
            name,
            "weight"@,
            a.weight.text,
            b.weight.text,
            pick(more),
            worded(more, "more points are at stake"@, "fewer points are at stake"@),
        ),
    );
    lemma_noted(
        out,
        a.category != b.category,
        change(
            name,
            "category"@,
            a.category,
            b.category,
            Direction::Unclear,
            "the deduction moves to a different score"@,
        ),
    );
    assert forall|key: Text|
        same_param(#[trigger] table::lookup(a.params, key), table::lookup(b.params, key)) by {
        if table::lookup(a.params, key) is Some || table::lookup(b.params, key) is Some {
            let k = lemma_both(a.params, b.params, key);
            assert(names[k].0 == key);
        }
    }
}

/// What became of a rule where nothing but tightening happens.
spec fn rule_only_tighter(before: Option<RuleV>, after: Option<RuleV>) -> bool {
    match (before, after) {
        (Some(a), Some(b)) => only_tighter(a, b),
        (Some(_), None) => false,
        _ => true,
    }
}

proof fn lemma_rules_tight(
    out: Seq<ChangeV>,
    before: Seq<(Text, RuleV)>,
    after: Seq<(Text, RuleV)>,
    names: Seq<(Text, ())>,
    n: nat,
)
    requires
        n <= names.len(),
        all_tight(rules_moved(out, before, after, names, n)),
    ensures
        all_tight(out),
        forall|k: int|
            0 <= k < n ==> rule_only_tighter(
                table::lookup(before, (#[trigger] names[k]).0),
                table::lookup(after, names[k].0),
            ),
    decreases n,
{
    if n > 0 {
        let so_far = rules_moved(out, before, after, names, (n - 1) as nat);
        let name = names[n - 1].0;
        match (table::lookup(before, name), table::lookup(after, name)) {
            (Some(a), Some(b)) => lemma_rule_tight(so_far, name, a, b),
            (None, Some(b)) => lemma_noted(
                so_far,
                b.enabled,
                change(
                    name,
                    "rule"@,
                    "absent"@,
                    "enabled"@,
                    Direction::Tighter,
                    "a rule that was not being applied now is"@,
                ),
            ),
            (Some(_), None) => lemma_noted(
                so_far,
                true,
                change(
                    name,
                    "rule"@,
                    "present"@,
                    "absent"@,
                    Direction::Unclear,
                    "a removed rule falls back to a default this cannot see"@,
                ),
            ),
            (None, None) => {},
        }
        lemma_rules_tight(out, before, after, names, (n - 1) as nat);
    }
}

proof fn lemma_excluded_tight(out: Seq<ChangeV>, after: Seq<Text>, before: Seq<Text>, n: nat)
    requires
        n <= after.len(),
        all_tight(excluded_now(out, after, before, n)),
    ensures
        all_tight(out),
        forall|k: int| 0 <= k < n ==> before.contains(#[trigger] after[k]),
    decreases n,
{
    if n > 0 {
        let so_far = excluded_now(out, after, before, (n - 1) as nat);
        lemma_noted(
            so_far,
            !before.contains(after[n - 1]),
            change(
                seq![],
                "exclude"@,
                "measured"@,
                after[n - 1],
                Direction::Looser,
                "excluded code is not scored, so nothing in it can fail"@,
            ),
        );
        lemma_excluded_tight(out, after, before, (n - 1) as nat);
    }
}

proof fn lemma_measured_tight(out: Seq<ChangeV>, before: Seq<Text>, after: Seq<Text>, n: nat)
    requires
        n <= before.len(),
        all_tight(measured_now(out, before, after, n)),
    ensures
        all_tight(out),
    decreases n,
{
    if n > 0 {
        let so_far = measured_now(out, before, after, (n - 1) as nat);
        lemma_noted(
            so_far,
            !after.contains(before[n - 1]),
            change(
                seq![],
                "exclude"@,
                before[n - 1],
                "measured"@,
                Direction::Tighter,
                "code that was not scored now is"@,
            ),
        );
        lemma_measured_tight(out, before, after, (n - 1) as nat);
    }
}

proof fn lemma_all_tight(before: ConfigV, after: ConfigV)
    requires
        all_tight(differences(before, after)),
    ensures
        all_tight(floor_moved(before.min_score, after.min_score)),
        forall|k: int|
            0 <= k < after.exclude.len() ==> before.exclude.contains(
                #[trigger] after.exclude[k],
            ),
        forall|name: Text|
            rule_only_tighter(
                #[trigger] table::lookup(before.rules, name),
                table::lookup(after.rules, name),
            ),
{
    let names = both(before.rules, after.rules);
    let one = floor_moved(before.min_score, after.min_score);
    let two = excluded_now(one, after.exclude, before.exclude, after.exclude.len());
    let three = measured_now(two, before.exclude, after.exclude, before.exclude.len());
    lemma_rules_tight(three, before.rules, after.rules, names, names.len());
    lemma_measured_tight(two, before.exclude, after.exclude, before.exclude.len());
    lemma_excluded_tight(one, after.exclude, before.exclude, after.exclude.len());
    assert forall|name: Text|
        rule_only_tighter(
            #[trigger] table::lookup(before.rules, name),
            table::lookup(after.rules, name),
        ) by {
        if table::lookup(before.rules, name) is Some {
            let k = lemma_both(before.rules, after.rules, name);
            assert(names[k].0 == name);
        }
    }
}

/// A rule that is nowhere easier to pass: on where it was on, with no less at
/// stake, no more tolerated, the whole weight taken no later, in the same
/// category and measured by the same parameters.
pub open spec fn no_easier(a: RuleV, b: RuleV) -> bool {
    &&& a.enabled ==> b.enabled
    &&& !measure::below(b.weight.bits, a.weight.bits)
    &&& !measure::below(a.free.bits, b.free.bits)
    &&& !measure::below(a.full.bits, b.full.bits)
    &&& !measure::below(b.full.bits, b.free.bits)
    &&& a.category == b.category
    &&& forall|key: Text|
        same_param(#[trigger] table::lookup(a.params, key), table::lookup(b.params, key))
}

/// What an agent may apply makes nothing easier: the floor is no lower, no
/// code is excluded that was measured, and every rule that was there is there
/// and is nowhere easier to pass.
pub proof fn lemma_nothing_easier(before: ConfigV, after: ConfigV)
    requires
        all_tighten(differences(before, after)),
    ensures
        match (before.min_score, after.min_score) {
            (Some(a), Some(b)) => a <= b,
            (Some(_), None) => false,
            (None, _) => true,
        },
        forall|path: Text|
            #[trigger] after.exclude.contains(path) ==> before.exclude.contains(path),
        forall|name: Text|
            match #[trigger] table::lookup(before.rules, name) {
                Some(a) => match table::lookup(after.rules, name) {
                    Some(b) => no_easier(a, b),
                    None => false,
                },
                None => true,
            },
{
    lemma_all_tight(before, after);
    let floor = floor_moved(before.min_score, after.min_score);
    if floor.len() > 0 {
        assert(floor[0].direction == Direction::Tighter);
    }
}

/// A rule that did not move.
spec fn still(a: RuleV, b: RuleV) -> bool {
    &&& a.enabled == b.enabled
    &&& !differ(a.weight, b.weight)
    &&& !differ(a.free, b.free)
    &&& !differ(a.full, b.full)
    &&& !measure::below(b.full.bits, b.free.bits)
    &&& a.category == b.category
    &&& forall|key: Text|
        same_param(#[trigger] table::lookup(a.params, key), table::lookup(b.params, key))
}

proof fn lemma_params_still(
    out: Seq<ChangeV>,
    name: Text,
    a: Seq<(Text, RealV)>,
    b: Seq<(Text, RealV)>,
    names: Seq<(Text, ())>,
    n: nat,
)
    requires
        forall|key: Text| same_param(#[trigger] table::lookup(a, key), table::lookup(b, key)),
    ensures
        params_moved(out, name, a, b, names, n) == out,
    decreases n,
{
    if n > 0 {
        lemma_params_still(out, name, a, b, names, (n - 1) as nat);
        assert(same_param(
            table::lookup(a, names[n - 1].0),
            table::lookup(b, names[n - 1].0),
        ));
    }
}

/// What became of a rule where nothing is reported.
spec fn rule_still(before: Option<RuleV>, after: Option<RuleV>) -> bool {
    match (before, after) {
        (Some(a), Some(b)) => still(a, b),
        (Some(_), None) => false,
        (None, Some(b)) => !b.enabled,
        (None, None) => true,
    }
}

proof fn lemma_rules_still(
    out: Seq<ChangeV>,
    before: Seq<(Text, RuleV)>,
    after: Seq<(Text, RuleV)>,
    names: Seq<(Text, ())>,
    n: nat,
)
    requires
        forall|name: Text|
            rule_still(
                #[trigger] table::lookup(before, name),
                table::lookup(after, name),
            ),
    ensures
        rules_moved(out, before, after, names, n) == out,
    decreases n,
{
    if n > 0 {
        lemma_rules_still(out, before, after, names, (n - 1) as nat);
        let name = names[n - 1].0;
        assert(rule_still(table::lookup(before, name), table::lookup(after, name)));
        match (table::lookup(before, name), table::lookup(after, name)) {
            (Some(a), Some(b)) => {
                let keys = both(a.params, b.params);
                lemma_params_still(out, name, a.params, b.params, keys, keys.len());
            },
            _ => {},
        }
    }
}

proof fn lemma_paths_still(out: Seq<ChangeV>, a: Seq<Text>, b: Seq<Text>, n: nat)
    requires
        n <= a.len(),
        forall|k: int| 0 <= k < a.len() ==> b.contains(#[trigger] a[k]),
    ensures
        excluded_now(out, a, b, n) == out,
        measured_now(out, a, b, n) == out,
    decreases n,
{
    if n > 0 {
        lemma_paths_still(out, a, b, (n - 1) as nat);
        assert(b.contains(a[n - 1]));
    }
}

/// A rule whose numbers are numbers and whose ramp does not run backwards.
pub open spec fn sane(rule: RuleV) -> bool {
    &&& !measure::is_nan(rule.weight.bits)
    &&& !measure::is_nan(rule.free.bits)
    &&& !measure::is_nan(rule.full.bits)
    &&& !measure::below(rule.full.bits, rule.free.bits)
    &&& forall|key: Text|
        match #[trigger] table::lookup(rule.params, key) {
            Some(r) => !measure::is_nan(r.bits),
            None => true,
        }
}

/// A configuration that did not change has no differences, and so may not be
/// applied as a tightening.
pub proof fn lemma_nothing_changed(config: ConfigV)
    requires
        all_sane(config.rules),
    ensures
        differences(config, config) == Seq::<ChangeV>::empty(),
        !all_tighten(differences(config, config)),
{
    let names = both(config.rules, config.rules);
    let one = floor_moved(config.min_score, config.min_score);
    assert forall|k: int| 0 <= k < config.exclude.len() implies config.exclude.contains(
        #[trigger] config.exclude[k],
    ) by {}
    lemma_paths_still(one, config.exclude, config.exclude, config.exclude.len());
    assert forall|name: Text|
        rule_still(
            #[trigger] table::lookup(config.rules, name),
            table::lookup(config.rules, name),
        ) by {
        if let Some(rule) = table::lookup(config.rules, name) {
            assert(sane(rule));
            assert forall|key: Text|
                same_param(
                    #[trigger] table::lookup(rule.params, key),
                    table::lookup(rule.params, key),
                ) by {}
        }
    }
    lemma_rules_still(one, config.rules, config.rules, names, names.len());
}

/// What one tightening did, no tightening undoes.
pub proof fn lemma_ratchet(before: ConfigV, after: ConfigV)
    requires
        all_tighten(differences(before, after)),
    ensures
        !all_tighten(differences(after, before)),
{
    if all_tighten(differences(after, before)) {
        lemma_all_tight(before, after);
        lemma_all_tight(after, before);
        lemma_nothing_easier(before, after);
        lemma_nothing_easier(after, before);
        let names = both(before.rules, after.rules);
        let one = floor_moved(before.min_score, after.min_score);
        assert(one =~= seq![]);
        lemma_paths_still(one, after.exclude, before.exclude, after.exclude.len());
        lemma_paths_still(one, before.exclude, after.exclude, before.exclude.len());
        assert forall|name: Text|
            rule_still(
                #[trigger] table::lookup(before.rules, name),
                table::lookup(after.rules, name),
            ) by {
            assert(rule_only_tighter(
                table::lookup(before.rules, name),
                table::lookup(after.rules, name),
            ));
            assert(rule_only_tighter(
                table::lookup(after.rules, name),
                table::lookup(before.rules, name),
            ));
        }
        lemma_rules_still(one, before.rules, after.rules, names, names.len());
    }
}

proof fn lemma_objected(changes: Seq<ChangeV>, n: nat)
    requires
        n <= changes.len(),
    ensures
        objected(changes, n).len() == 0 <==> forall|i: int|
            0 <= i < n ==> (#[trigger] changes[i]).direction == Direction::Tighter,
        forall|i: int|
            0 <= i < objected(changes, n).len() ==> (#[trigger] objected(
                changes,
                n,
            )[i]).direction != Direction::Tighter,
    decreases n,
{
    if n > 0 {
        lemma_objected(changes, (n - 1) as nat);
    }
}

/// A proposal that changes something is refused exactly when there is
/// something to object to, and nothing is objected to that is a tightening.
pub proof fn lemma_objections(changes: Seq<ChangeV>)
    ensures
        all_tighten(changes) <==> changes.len() > 0 && objected(changes, changes.len()).len() == 0,
        forall|i: int|
            0 <= i < objected(changes, changes.len()).len() ==> (#[trigger] objected(
                changes,
                changes.len(),
            )[i]).direction != Direction::Tighter,
{
    lemma_objected(changes, changes.len());
}

// --- a comparison the other way round ----------------------------------------

pub open spec fn turned(d: Direction) -> Direction {
    match d {
        Direction::Tighter => Direction::Looser,
        Direction::Looser => Direction::Tighter,
        Direction::Unclear => Direction::Unclear,
    }
}

/// A change without its reason.
pub open spec fn bare(c: ChangeV) -> ChangeV {
    ChangeV { why: seq![], ..c }
}

/// The change that undoes one, without its reason.
pub open spec fn undone(c: ChangeV) -> ChangeV {
    ChangeV {
        before: c.after,
        after: c.before,
        direction: turned(c.direction),
        why: seq![],
        ..c
    }
}

/// Changes in no order, without their reasons.
pub open spec fn all_bare(changes: Seq<ChangeV>) -> Multiset<ChangeV> {
    changes.map_values(|c: ChangeV| bare(c)).to_multiset()
}

/// The changes that undo some, in no order and without their reasons.
pub open spec fn all_undone(changes: Seq<ChangeV>) -> Multiset<ChangeV> {
    changes.map_values(|c: ChangeV| undone(c)).to_multiset()
}

broadcast proof fn lemma_noted_bare(out: Seq<ChangeV>, holds: bool, c: ChangeV)
    ensures
        #[trigger] all_bare(noted(out, holds, c)) == (if holds {
            all_bare(out).insert(bare(c))
        } else {
            all_bare(out)
        }),
{
    let f = |c: ChangeV| bare(c);
    assert(out.push(c).map_values(f) =~= out.map_values(f).push(bare(c)));
    vstd::seq_lib::to_multiset_build(out.map_values(f), bare(c));
}

broadcast proof fn lemma_noted_undone(out: Seq<ChangeV>, holds: bool, c: ChangeV)
    ensures
        #[trigger] all_undone(noted(out, holds, c)) == (if holds {
            all_undone(out).insert(undone(c))
        } else {
            all_undone(out)
        }),
{
    let f = |c: ChangeV| undone(c);
    assert(out.push(c).map_values(f) =~= out.map_values(f).push(undone(c)));
    vstd::seq_lib::to_multiset_build(out.map_values(f), undone(c));
}

proof fn lemma_with_names_ordered<V>(out: Seq<(Text, ())>, rows: Seq<(Text, V)>, n: nat, key: Text)
    requires
        table::ordered(out),
        n <= rows.len(),
    ensures
        table::ordered(with_names(out, rows, n)),
        table::lookup(with_names(out, rows, n), key) == (if table::lookup(out, key) is Some || (
        exists|k: int| 0 <= k < n && (#[trigger] rows[k]).0 == key) {
            Some(())
        } else {
            None
        }),
    decreases n,
{
    if n > 0 {
        let before = with_names(out, rows, (n - 1) as nat);
        lemma_with_names_ordered(out, rows, (n - 1) as nat, key);
        table::lemma_put_ordered(before, rows[n - 1].0, ());
        table::lemma_put_lookup(before, rows[n - 1].0, (), key);
    }
}

/// The names of two tables are the same, whichever comes first.
proof fn lemma_both_ways<V>(a: Seq<(Text, V)>, b: Seq<(Text, V)>)
    ensures
        both(a, b) == both(b, a),
{
    let none: Seq<(Text, ())> = seq![];
    assert forall|key: Text| #[trigger]
        table::lookup(both(a, b), key) == table::lookup(both(b, a), key) by {
        lemma_with_names_ordered(none, a, a.len(), key);
        lemma_with_names_ordered(with_names(none, a, a.len()), b, b.len(), key);
        lemma_with_names_ordered(none, b, b.len(), key);
        lemma_with_names_ordered(with_names(none, b, b.len()), a, a.len(), key);
    }
    lemma_with_names_ordered(none, a, a.len(), seq![]);
    lemma_with_names_ordered(with_names(none, a, a.len()), b, b.len(), seq![]);
    lemma_with_names_ordered(none, b, b.len(), seq![]);
    lemma_with_names_ordered(with_names(none, b, b.len()), a, a.len(), seq![]);
    table::lemma_same_table(both(a, b), both(b, a));
}

proof fn lemma_params_turned(
    there: Seq<ChangeV>,
    back: Seq<ChangeV>,
    name: Text,
    a: Seq<(Text, RealV)>,
    b: Seq<(Text, RealV)>,
    names: Seq<(Text, ())>,
    n: nat,
)
    requires
        all_bare(back) == all_undone(there),
    ensures
        all_bare(params_moved(back, name, b, a, names, n)) == all_undone(
            params_moved(there, name, a, b, names, n),
        ),
    decreases n,
{
    broadcast use {lemma_noted_bare, lemma_noted_undone};

    if n > 0 {
        lemma_params_turned(there, back, name, a, b, names, (n - 1) as nat);
    }
}

proof fn lemma_rule_turned(
    there: Seq<ChangeV>,
    back: Seq<ChangeV>,
    name: Text,
    a: RuleV,
    b: RuleV,
)
    requires
        all_bare(back) == all_undone(there),
        sane(a),
        sane(b),
    ensures
        all_bare(rule_moved(back, name, b, a)) == all_undone(rule_moved(there, name, a, b)),
{
    broadcast use {lemma_noted_bare, lemma_noted_undone};

    let (x, y) = (category_moved(there, name, a, b), category_moved(back, name, b, a));
    assert(all_bare(y) == all_undone(x));
    let (x, y) = (weight_moved(x, name, a, b), weight_moved(y, name, b, a));
    assert(all_bare(y) == all_undone(x));
    let (x, y) = (free_moved(x, name, a, b), free_moved(y, name, b, a));
    assert(all_bare(y) == all_undone(x));
    let (x, y) = (backwards(x, name, a, b), backwards(y, name, b, a));
    assert(all_bare(y) == all_undone(x));
    let (x, y) = (full_moved(x, name, a, b), full_moved(y, name, b, a));
    assert(all_bare(y) == all_undone(x));
    let (x, y) = (enabled_moved(x, name, a, b), enabled_moved(y, name, b, a));
    assert(all_bare(y) == all_undone(x));
    lemma_both_ways(a.params, b.params);
    let names = both(a.params, b.params);
    lemma_params_turned(x, y, name, a.params, b.params, names, names.len());
}

proof fn lemma_rules_turned(
    there: Seq<ChangeV>,
    back: Seq<ChangeV>,
    a: Seq<(Text, RuleV)>,
    b: Seq<(Text, RuleV)>,
    names: Seq<(Text, ())>,
    n: nat,
)
    requires
        all_bare(back) == all_undone(there),
        all_sane(a),
        all_sane(b),
        forall|name: Text|
            (#[trigger] table::lookup(a, name)) is Some <==> table::lookup(b, name) is Some,
    ensures
        all_bare(rules_moved(back, b, a, names, n)) == all_undone(
            rules_moved(there, a, b, names, n),
        ),
    decreases n,
{
    if n > 0 {
        lemma_rules_turned(there, back, a, b, names, (n - 1) as nat);
        let name = names[n - 1].0;
        if let (Some(x), Some(y)) = (table::lookup(a, name), table::lookup(b, name)) {
            lemma_rule_turned(
                rules_moved(there, a, b, names, (n - 1) as nat),
                rules_moved(back, b, a, names, (n - 1) as nat),
                name,
                x,
                y,
            );
        }
    }
}

/// Every rule is sane.
pub open spec fn all_sane(rules: Seq<(Text, RuleV)>) -> bool {
    forall|name: Text|
        match #[trigger] table::lookup(rules, name) {
            Some(rule) => sane(rule),
            None => true,
        }
}

/// The paths among the first `n` that another list lacks, each as one change.
spec fn lacking(paths: Seq<Text>, other: Seq<Text>, n: nat, excluded: bool) -> Multiset<ChangeV>
    decreases n,
{
    if n == 0 {
        Multiset::empty()
    } else {
        let before = lacking(paths, other, (n - 1) as nat, excluded);
        if other.contains(paths[n - 1]) {
            before
        } else if excluded {
            before.insert(
                change(seq![], "exclude"@, "measured"@, paths[n - 1], Direction::Looser, seq![]),
            )
        } else {
            before.insert(
                change(seq![], "exclude"@, paths[n - 1], "measured"@, Direction::Tighter, seq![]),
            )
        }
    }
}

proof fn lemma_lacking(out: Seq<ChangeV>, paths: Seq<Text>, other: Seq<Text>, n: nat)
    requires
        n <= paths.len(),
    ensures
        all_bare(excluded_now(out, paths, other, n)) == all_bare(out).add(
            lacking(paths, other, n, true),
        ),
        all_undone(excluded_now(out, paths, other, n)) == all_undone(out).add(
            lacking(paths, other, n, false),
        ),
        all_bare(measured_now(out, paths, other, n)) == all_bare(out).add(
            lacking(paths, other, n, false),
        ),
        all_undone(measured_now(out, paths, other, n)) == all_undone(out).add(
            lacking(paths, other, n, true),
        ),
    decreases n,
{
    if n == 0 {
        assert(all_bare(out) =~= all_bare(out).add(Multiset::empty()));
        assert(all_undone(out) =~= all_undone(out).add(Multiset::empty()));
    } else {
        lemma_lacking(out, paths, other, (n - 1) as nat);
        let holds = !other.contains(paths[n - 1]);
        let path = paths[n - 1];
        let added = change(
            seq![],
            "exclude"@,
            "measured"@,
            path,
            Direction::Looser,
            "excluded code is not scored, so nothing in it can fail"@,
        );
        let dropped = change(
            seq![],
            "exclude"@,
            path,
            "measured"@,
            Direction::Tighter,
            "code that was not scored now is"@,
        );
        let e = excluded_now(out, paths, other, (n - 1) as nat);
        let m = measured_now(out, paths, other, (n - 1) as nat);
        assert(excluded_now(out, paths, other, n) == noted(e, holds, added));
        assert(measured_now(out, paths, other, n) == noted(m, holds, dropped));
        lemma_noted_bare(e, holds, added);
        lemma_noted_undone(e, holds, added);
        lemma_noted_bare(m, holds, dropped);
        lemma_noted_undone(m, holds, dropped);
        assert(all_bare(excluded_now(out, paths, other, n)) =~= all_bare(out).add(
            lacking(paths, other, n, true),
        ));
        assert(all_undone(excluded_now(out, paths, other, n)) =~= all_undone(out).add(
            lacking(paths, other, n, false),
        ));
        assert(all_bare(measured_now(out, paths, other, n)) =~= all_bare(out).add(
            lacking(paths, other, n, false),
        ));
        assert(all_undone(measured_now(out, paths, other, n)) =~= all_undone(out).add(
            lacking(paths, other, n, true),
        ));
    }
}

proof fn lemma_floor_turned(before: Option<u32>, after: Option<u32>)
    ensures
        all_bare(floor_moved(after, before)) == all_undone(floor_moved(before, after)),
{
    let there = floor_moved(before, after);
    let back = floor_moved(after, before);
    assert(back.map_values(|c: ChangeV| bare(c)) =~= there.map_values(|c: ChangeV| undone(c)));
}

/// Compared the other way round, two configurations with the same rules differ
/// by the same changes undone: what was tighter is looser, what was before is
/// after, and what was unclear is unclear.
pub proof fn lemma_turned_round(before: ConfigV, after: ConfigV)
    requires
        all_sane(before.rules),
        all_sane(after.rules),
        forall|name: Text|
            (#[trigger] table::lookup(before.rules, name)) is Some <==> table::lookup(
                after.rules,
                name,
            ) is Some,
    ensures
        all_bare(differences(after, before)) == all_undone(differences(before, after)),
{
    let (xs, ys) = (before.exclude, after.exclude);
    let there = floor_moved(before.min_score, after.min_score);
    let back = floor_moved(after.min_score, before.min_score);
    lemma_floor_turned(before.min_score, after.min_score);
    let there_e = excluded_now(there, ys, xs, ys.len());
    let back_e = excluded_now(back, xs, ys, xs.len());
    let there_m = measured_now(there_e, xs, ys, xs.len());
    let back_m = measured_now(back_e, ys, xs, ys.len());
    lemma_lacking(there, ys, xs, ys.len());
    lemma_lacking(back, xs, ys, xs.len());
    lemma_lacking(there_e, xs, ys, xs.len());
    lemma_lacking(back_e, ys, xs, ys.len());
    assert(all_bare(back_m) =~= all_undone(there_m));
    lemma_both_ways(before.rules, after.rules);
    let names = both(before.rules, after.rules);
    lemma_rules_turned(there_m, back_m, before.rules, after.rules, names, names.len());
}

// --- order -------------------------------------------------------------------

/// Where a field stands among those of the configuration, and then those of a
/// rule as it declares them.
pub open spec fn rank(field: Text) -> int {
    if field == "min_score"@ {
        0
    } else if field == "exclude"@ {
        1
    } else if field == "category"@ {
        2
    } else if field == "weight"@ {
        3
    } else if field == "free"@ {
        4
    } else if field == "full"@ {
        5
    } else if field == "enabled"@ {
        6
    } else {
        7
    }
}

/// Whether one change may be told before another.
pub open spec fn in_order(c: ChangeV, d: ChangeV) -> bool {
    text::less(c.rule, d.rule) || c.rule == d.rule && rank(c.field) <= rank(d.field)
}

pub open spec fn all_in_order(changes: Seq<ChangeV>) -> bool {
    forall|i: int, j: int|
        0 <= i < j < changes.len() ==> in_order(#[trigger] changes[i], #[trigger] changes[j])
}

/// Whether changes are in order, and none is beyond a field of a rule.
spec fn up_to(changes: Seq<ChangeV>, rule: Text, most: int) -> bool {
    &&& all_in_order(changes)
    &&& forall|i: int|
        0 <= i < changes.len() ==> text::less((#[trigger] changes[i]).rule, rule)
            || changes[i].rule == rule && rank(changes[i].field) <= most
}

proof fn lemma_ranks()
    ensures
        rank("min_score"@) == 0,
        rank("exclude"@) == 1,
        rank("category"@) == 2,
        rank("weight"@) == 3,
        rank("free"@) == 4,
        rank("full"@) == 5,
        rank("enabled"@) == 6,
        rank("rule"@) == 7,
        forall|key: Text| rank(#[trigger] ("params."@ + key)) == 7,
{
    reveal_strlit("min_score");
    reveal_strlit("exclude");
    reveal_strlit("category");
    reveal_strlit("weight");
    reveal_strlit("free");
    reveal_strlit("full");
    reveal_strlit("enabled");
    reveal_strlit("rule");
    reveal_strlit("params.");
    assert("exclude"@[1] != "enabled"@[1]);
    assert("free"@[1] != "full"@[1]);
    assert("free"@[0] != "rule"@[0]);
    assert("full"@[0] != "rule"@[0]);
    assert forall|key: Text| rank(#[trigger] ("params."@ + key)) == 7 by {
        let field = "params."@ + key;
        assert(field[0] == 'p');
        assert("min_score"@[0] == 'm' && "exclude"@[0] == 'e' && "category"@[0] == 'c');
        assert("weight"@[0] == 'w' && "free"@[0] == 'f' && "full"@[0] == 'f');
        assert("enabled"@[0] == 'e');
    }
}

broadcast proof fn lemma_noted_up_to(out: Seq<ChangeV>, holds: bool, c: ChangeV, most: int)
    requires
        up_to(out, c.rule, most),
        most <= rank(c.field),
    ensures
        up_to(#[trigger] noted(out, holds, c), c.rule, rank(c.field)),
        #[trigger] up_to(out, c.rule, most),
{
}

proof fn lemma_params_up_to(
    out: Seq<ChangeV>,
    name: Text,
    a: Seq<(Text, RealV)>,
    b: Seq<(Text, RealV)>,
    names: Seq<(Text, ())>,
    n: nat,
)
    requires
        up_to(out, name, 7),
    ensures
        up_to(params_moved(out, name, a, b, names, n), name, 7),
    decreases n,
{
    broadcast use lemma_noted_up_to;

    lemma_ranks();
    if n > 0 {
        lemma_params_up_to(out, name, a, b, names, (n - 1) as nat);
        assert(rank("params."@ + names[n - 1].0) == 7);
    }
}

proof fn lemma_rule_up_to(out: Seq<ChangeV>, name: Text, a: RuleV, b: RuleV)
    requires
        up_to(out, name, 1),
    ensures
        up_to(rule_moved(out, name, a, b), name, 7),
{
    broadcast use lemma_noted_up_to;

    lemma_ranks();
    let category = category_moved(out, name, a, b);
    assert(up_to(category, name, 2));
    let weight = weight_moved(category, name, a, b);
    assert(up_to(weight, name, 3));
    let free = free_moved(weight, name, a, b);
    assert(up_to(free, name, 4));
    let ramp = backwards(free, name, a, b);
    assert(up_to(ramp, name, 4));
    let full = full_moved(ramp, name, a, b);
    assert(up_to(full, name, 5));
    let enabled = enabled_moved(full, name, a, b);
    assert(up_to(enabled, name, 6));
    let names = both(a.params, b.params);
    lemma_params_up_to(enabled, name, a.params, b.params, names, names.len());
}

proof fn lemma_named_up_to(
    out: Seq<ChangeV>,
    name: Text,
    before: Seq<(Text, RuleV)>,
    after: Seq<(Text, RuleV)>,
)
    requires
        up_to(out, name, 1),
    ensures
        up_to(named_moved(out, name, before, after), name, 7),
{
    broadcast use lemma_noted_up_to;

    lemma_ranks();
    match (table::lookup(before, name), table::lookup(after, name)) {
        (Some(a), Some(b)) => lemma_rule_up_to(out, name, a, b),
        _ => {},
    }
}

proof fn lemma_names_ordered<V>(out: Seq<(Text, ())>, rows: Seq<(Text, V)>, n: nat)
    requires
        table::ordered(out),
    ensures
        table::ordered(with_names(out, rows, n)),
    decreases n,
{
    if n > 0 {
        lemma_names_ordered(out, rows, (n - 1) as nat);
        table::lemma_put_ordered(with_names(out, rows, (n - 1) as nat), rows[n - 1].0, ());
    }
}

proof fn lemma_rules_up_to(
    out: Seq<ChangeV>,
    before: Seq<(Text, RuleV)>,
    after: Seq<(Text, RuleV)>,
    names: Seq<(Text, ())>,
    n: nat,
)
    requires
        n <= names.len(),
        table::ordered(names),
        up_to(out, seq![], 1),
    ensures
        n == 0 ==> up_to(rules_moved(out, before, after, names, n), seq![], 1),
        n > 0 ==> up_to(rules_moved(out, before, after, names, n), names[n - 1].0, 7),
    decreases n,
{
    if n > 0 {
        let name = names[n - 1].0;
        let so_far = rules_moved(out, before, after, names, (n - 1) as nat);
        lemma_rules_up_to(out, before, after, names, (n - 1) as nat);
        assert forall|i: int| 0 <= i < so_far.len() implies text::less(
            (#[trigger] so_far[i]).rule,
            name,
        ) || so_far[i].rule == name && rank(so_far[i].field) <= 1 by {
            if n > 1 {
                let last = names[n - 2].0;
                assert(text::less(last, name));
                if so_far[i].rule != last {
                    text::lemma_less_transitive(so_far[i].rule, last, name);
                }
            } else if name.len() == 0 {
                assert(name =~= seq![]);
                assert(!text::less(so_far[i].rule, name));
            } else {
                assert(so_far[i].rule =~= seq![]);
            }
        }
        lemma_named_up_to(so_far, name, before, after);
    }
}

proof fn lemma_paths_up_to(
    out: Seq<ChangeV>,
    a: Seq<Text>,
    b: Seq<Text>,
    n: nat,
)
    requires
        up_to(out, seq![], 1),
    ensures
        up_to(excluded_now(out, a, b, n), seq![], 1),
        up_to(measured_now(out, a, b, n), seq![], 1),
    decreases n,
{
    lemma_ranks();
    if n > 0 {
        lemma_paths_up_to(out, a, b, (n - 1) as nat);
    }
}

/// Differences are told in order: those of the configuration first, then those
/// of the rules by name, and those of one rule as it declares its fields.
pub proof fn lemma_in_order(before: ConfigV, after: ConfigV)
    ensures
        all_in_order(differences(before, after)),
{
    lemma_ranks();
    let floor = floor_moved(before.min_score, after.min_score);
    assert(up_to(floor, seq![], 1));
    let excluded = excluded_now(floor, after.exclude, before.exclude, after.exclude.len());
    lemma_paths_up_to(floor, after.exclude, before.exclude, after.exclude.len());
    let measured = measured_now(excluded, before.exclude, after.exclude, before.exclude.len());
    lemma_paths_up_to(excluded, before.exclude, after.exclude, before.exclude.len());
    let names = both(before.rules, after.rules);
    lemma_names_ordered(Seq::<(Text, ())>::empty(), before.rules, before.rules.len());
    lemma_names_ordered(
        with_names(seq![], before.rules, before.rules.len()),
        after.rules,
        after.rules.len(),
    );
    lemma_rules_up_to(measured, before.rules, after.rules, names, names.len());
}


// --- what a change says ------------------------------------------------------

/// Whether a change of that field of that rule is told, from what it was to what it
/// is, in that direction.
pub open spec fn tells(
    changes: Seq<ChangeV>,
    rule: Text,
    field: Text,
    before: Text,
    after: Text,
    direction: Direction,
) -> bool {
    exists|i: int|
        0 <= i < changes.len() && {
            let c = #[trigger] changes[i];
            c.rule == rule && c.field == field && c.before == before && c.after == after
                && c.direction == direction
        }
}

/// Whether all that one list tells, another tells too.
spec fn keeps(more: Seq<ChangeV>, changes: Seq<ChangeV>) -> bool {
    forall|i: int| 0 <= i < changes.len() ==> more.contains(#[trigger] changes[i])
}

broadcast proof fn lemma_noted_keeps(out: Seq<ChangeV>, holds: bool, c: ChangeV)
    ensures
        #[trigger] keeps(noted(out, holds, c), out),
        holds ==> noted(out, holds, c).contains(c),
{
    let more = noted(out, holds, c);
    assert forall|i: int| 0 <= i < out.len() implies more.contains(#[trigger] out[i]) by {
        assert(more[i] == out[i]);
    }
    if holds {
        assert(more[out.len() as int] == c);
    }
}

proof fn lemma_keeps(a: Seq<ChangeV>, b: Seq<ChangeV>, c: Seq<ChangeV>)
    requires
        keeps(b, a),
        keeps(c, b),
    ensures
        keeps(c, a),
{
    assert forall|i: int| 0 <= i < a.len() implies c.contains(#[trigger] a[i]) by {
        let j = choose|j: int| 0 <= j < b.len() && b[j] == a[i];
        assert(c.contains(b[j]));
    }
}

proof fn lemma_still_told(more: Seq<ChangeV>, changes: Seq<ChangeV>, c: ChangeV)
    requires
        keeps(more, changes),
        changes.contains(c),
    ensures
        more.contains(c),
        tells(more, c.rule, c.field, c.before, c.after, c.direction),
{
    let i = choose|i: int| 0 <= i < changes.len() && changes[i] == c;
    assert(more.contains(changes[i]));
    let j = choose|j: int| 0 <= j < more.len() && more[j] == c;
    assert(more[j].rule == c.rule);
}

proof fn lemma_params_keep(
    out: Seq<ChangeV>,
    name: Text,
    a: Seq<(Text, RealV)>,
    b: Seq<(Text, RealV)>,
    names: Seq<(Text, ())>,
    n: nat,
)
    ensures
        keeps(params_moved(out, name, a, b, names, n), out),
    decreases n,
{
    if n > 0 {
        let before = params_moved(out, name, a, b, names, (n - 1) as nat);
        lemma_params_keep(out, name, a, b, names, (n - 1) as nat);
        let key = names[n - 1].0;
        let c = change(
            name,
            "params."@ + key,
            param_text(table::lookup(a, key)),
            param_text(table::lookup(b, key)),
            Direction::Unclear,
            "which way a parameter tightens depends on what it measures"@,
        );
        let holds = !same_param(table::lookup(a, key), table::lookup(b, key));
        lemma_noted_keeps(before, holds, c);
        lemma_keeps(out, before, noted(before, holds, c));
    } else {
        assert(keeps(out, out));
    }
}

/// Each part of a rule that differs is told from what it was to what it is: more
/// weight, less for free and an earlier full price are tighter, and so is a rule
/// that is switched on.
#[verifier::rlimit(60)]
pub proof fn lemma_rule_told(out: Seq<ChangeV>, name: Text, a: RuleV, b: RuleV)
    ensures
        ({
            let told = rule_moved(out, name, a, b);
            &&& forall|i: int| 0 <= i < out.len() ==> told.contains(#[trigger] out[i])
            &&& a.category != b.category ==> tells(
                told,
                name,
                "category"@,
                a.category,
                b.category,
                Direction::Unclear,
            )
            &&& measure::below(a.weight.bits, b.weight.bits) ==> tells(
                told,
                name,
                "weight"@,
                a.weight.text,
                b.weight.text,
                Direction::Tighter,
            )
            &&& measure::below(b.weight.bits, a.weight.bits) ==> tells(
                told,
                name,
                "weight"@,
                a.weight.text,
                b.weight.text,
                Direction::Looser,
            )
            &&& measure::below(b.free.bits, a.free.bits) ==> tells(
                told,
                name,
                "free"@,
                a.free.text,
                b.free.text,
                Direction::Tighter,
            )
            &&& measure::below(a.free.bits, b.free.bits) ==> tells(
                told,
                name,
                "free"@,
                a.free.text,
                b.free.text,
                Direction::Looser,
            )
            &&& measure::below(b.full.bits, a.full.bits) ==> tells(
                told,
                name,
                "full"@,
                a.full.text,
                b.full.text,
                Direction::Tighter,
            )
            &&& measure::below(a.full.bits, b.full.bits) ==> tells(
                told,
                name,
                "full"@,
                a.full.text,
                b.full.text,
                Direction::Looser,
            )
            &&& !a.enabled && b.enabled ==> tells(
                told,
                name,
                "enabled"@,
                "false"@,
                "true"@,
                Direction::Tighter,
            )
            &&& a.enabled && !b.enabled ==> tells(
                told,
                name,
                "enabled"@,
                "true"@,
                "false"@,
                Direction::Looser,
            )
        }),
{
    broadcast use lemma_noted_keeps;

    let names = both(a.params, b.params);
    let o1 = category_moved(out, name, a, b);
    let o2 = weight_moved(o1, name, a, b);
    let o3 = free_moved(o2, name, a, b);
    let o4 = backwards(o3, name, a, b);
    let o5 = full_moved(o4, name, a, b);
    let o6 = enabled_moved(o5, name, a, b);
    let told = params_moved(o6, name, a.params, b.params, names, names.len());
    lemma_params_keep(o6, name, a.params, b.params, names, names.len());
    assert(keeps(o1, out) && keeps(o2, o1) && keeps(o3, o2) && keeps(o4, o3) && keeps(o5, o4)
        && keeps(o6, o5));
    lemma_keeps(o5, o6, told);
    lemma_keeps(o4, o5, told);
    lemma_keeps(o3, o4, told);
    lemma_keeps(o2, o3, told);
    lemma_keeps(o1, o2, told);
    lemma_keeps(out, o1, told);
    if a.category != b.category {
        lemma_still_told(told, o1, o1.last());
    }
    if differ(a.weight, b.weight) {
        lemma_still_told(told, o2, o2.last());
    }
    if differ(a.free, b.free) {
        lemma_still_told(told, o3, o3.last());
    }
    if differ(a.full, b.full) {
        lemma_still_told(told, o5, o5.last());
    }
    if a.enabled != b.enabled {
        lemma_still_told(told, o6, o6.last());
    }
}

/// A floor that differs is told from what it was to what it is, and a higher one is
/// tighter.
pub proof fn lemma_floor_told(a: u32, b: u32)
    ensures
        floor_moved(None, None).len() == 0,
        floor_moved(Some(a), Some(a)).len() == 0,
        tells(
            floor_moved(None, Some(b)),
            seq![],
            "min_score"@,
            "none"@,
            text::decimal_of(b as nat),
            Direction::Tighter,
        ),
        tells(
            floor_moved(Some(a), None),
            seq![],
            "min_score"@,
            text::decimal_of(a as nat),
            "none"@,
            Direction::Looser,
        ),
        a < b ==> tells(
            floor_moved(Some(a), Some(b)),
            seq![],
            "min_score"@,
            text::decimal_of(a as nat),
            text::decimal_of(b as nat),
            Direction::Tighter,
        ),
        a > b ==> tells(
            floor_moved(Some(a), Some(b)),
            seq![],
            "min_score"@,
            text::decimal_of(a as nat),
            text::decimal_of(b as nat),
            Direction::Looser,
        ),
{
    assert(floor_moved(None, Some(b))[0].field == "min_score"@);
    assert(floor_moved(Some(a), None)[0].field == "min_score"@);
    if a != b {
        assert(floor_moved(Some(a), Some(b))[0].field == "min_score"@);
    }
}


proof fn lemma_excluded_kept(out: Seq<ChangeV>, after: Seq<Text>, before: Seq<Text>, n: nat, at: int)
    requires
        n <= after.len(),
    ensures
        keeps(excluded_now(out, after, before, n), out),
        0 <= at < n && !before.contains(after[at]) ==> tells(
            excluded_now(out, after, before, n),
            seq![],
            "exclude"@,
            "measured"@,
            after[at],
            Direction::Looser,
        ),
    decreases n,
{
    if n > 0 {
        lemma_excluded_kept(out, after, before, (n - 1) as nat, at);
        let so_far = excluded_now(out, after, before, (n - 1) as nat);
        let now = excluded_now(out, after, before, n);
        assert(keeps(now, so_far)) by {
            assert forall|i: int| 0 <= i < so_far.len() implies now.contains(
                #[trigger] so_far[i],
            ) by {
                assert(now[i] == so_far[i]);
            }
        }
        lemma_keeps(out, so_far, now);
        if 0 <= at < n && !before.contains(after[at]) {
            if at == n - 1 {
                assert(now[so_far.len() as int].after == after[at]);
            } else {
                let i = choose|i: int|
                    0 <= i < so_far.len() && (#[trigger] so_far[i]).rule == Seq::<char>::empty()
                        && so_far[i].field == "exclude"@ && so_far[i].before == "measured"@
                        && so_far[i].after == after[at] && so_far[i].direction
                        == Direction::Looser;
                assert(now[i] == so_far[i]);
            }
        }
    } else {
        assert(keeps(out, out));
    }
}

/// What is newly excluded is told as looser, by its path.
pub proof fn lemma_excluded_told(out: Seq<ChangeV>, after: Seq<Text>, before: Seq<Text>, at: int)
    requires
        0 <= at < after.len(),
        !before.contains(after[at]),
    ensures
        tells(
            excluded_now(out, after, before, after.len()),
            seq![],
            "exclude"@,
            "measured"@,
            after[at],
            Direction::Looser,
        ),
{
    lemma_excluded_kept(out, after, before, after.len(), at);
}

}
