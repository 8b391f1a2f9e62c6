//! Rule configuration: defaults, a file, and what the environment overrides.
//!
//! Each layer is partial: a configuration that mentions one rule changes that
//! rule and leaves the rest alone.

use vstd::prelude::*;

use crate::json::{self, Json, JsonV};
use crate::measure::{self, Real, RealV};
use crate::said;
use crate::table::{self, Table};
use crate::text::{self, Text};

verus! {

/// Where a setting came from.
#[derive(Debug, Clone, Copy, PartialEq, Eq, Structural)]
pub enum Origin {
    Default,
    File,
    Env,
}

impl DeepView for Origin {
    type V = Origin;

    open spec fn deep_view(&self) -> Origin {
        *self
    }
}

impl Origin {
    pub fn name(self) -> (s: &'static str)
        ensures
            s@ == (match self {
                Origin::Default => "default"@,
                Origin::File => "config"@,
                Origin::Env => "env"@,
            }),
    {
        match self {
            Origin::Default => "default",
            Origin::File => "config",
            Origin::Env => "env",
        }
    }
}

/// One scoring rule.
///
/// `free` and `full` bound a ramp: a value at or below `free` costs nothing, a
/// value at or above `full` costs the whole weight, and anything between is
/// proportional.
#[derive(Debug)]
pub struct Rule {
    pub category: String,
    /// The most this rule can ever deduct.
    pub weight: Real,
    pub free: Real,
    pub full: Real,
    pub enabled: bool,
    /// What the rule measures by, where that can be set.
    pub params: Table<Real>,
}

pub struct RuleV {
    pub category: Text,
    pub weight: RealV,
    pub free: RealV,
    pub full: RealV,
    pub enabled: bool,
    pub params: Seq<(Text, RealV)>,
}

impl DeepView for Rule {
    type V = RuleV;

    open spec fn deep_view(&self) -> RuleV {
        RuleV {
            category: self.category@,
            weight: self.weight.deep_view(),
            free: self.free.deep_view(),
            full: self.full.deep_view(),
            enabled: self.enabled,
            params: self.params.deep_view(),
        }
    }
}

/// The partial form, so that a file can change one number without restating
/// the rest.
pub struct RulePatch {
    pub weight: Option<Real>,
    pub free: Option<Real>,
    pub full: Option<Real>,
    pub enabled: Option<bool>,
    pub category: Option<String>,
    pub params: Vec<(String, Real)>,
}

pub struct PatchV {
    pub weight: Option<RealV>,
    pub free: Option<RealV>,
    pub full: Option<RealV>,
    pub enabled: Option<bool>,
    pub category: Option<Text>,
    pub params: Seq<(Text, RealV)>,
}

impl DeepView for RulePatch {
    type V = PatchV;

    open spec fn deep_view(&self) -> PatchV {
        PatchV {
            weight: self.weight.deep_view(),
            free: self.free.deep_view(),
            full: self.full.deep_view(),
            enabled: self.enabled,
            category: self.category.deep_view(),
            params: self.params.deep_view(),
        }
    }
}

/// A configuration file.
pub struct ConfigFile {
    /// The version of the file's own shape.
    pub version: u32,
    pub rules: Table<RulePatch>,
    /// Fail the run when the lowest category score falls below this.
    pub min_score: Option<u32>,
    /// Paths excluded from every metric, as prefixes.
    pub exclude: Vec<String>,
}

pub struct FileV {
    pub version: u32,
    pub rules: Seq<(Text, PatchV)>,
    pub min_score: Option<u32>,
    pub exclude: Seq<Text>,
}

impl DeepView for ConfigFile {
    type V = FileV;

    open spec fn deep_view(&self) -> FileV {
        FileV {
            version: self.version,
            rules: self.rules.deep_view(),
            min_score: self.min_score,
            exclude: self.exclude.deep_view(),
        }
    }
}

pub struct Config {
    pub rules: Table<Rule>,
    pub origins: Table<Origin>,
    pub min_score: Option<u32>,
    pub exclude: Vec<String>,
    pub loaded_from: Option<String>,
}

pub struct ConfigV {
    pub rules: Seq<(Text, RuleV)>,
    pub origins: Seq<(Text, Origin)>,
    pub min_score: Option<u32>,
    pub exclude: Seq<Text>,
    pub loaded_from: Option<Text>,
}

impl DeepView for Config {
    type V = ConfigV;

    open spec fn deep_view(&self) -> ConfigV {
        ConfigV {
            rules: self.rules.deep_view(),
            origins: self.origins.deep_view(),
            min_score: self.min_score,
            exclude: self.exclude.deep_view(),
            loaded_from: self.loaded_from.deep_view(),
        }
    }
}

fn copy_reals(rows: &Table<Real>) -> (out: Table<Real>)
    ensures
        out.deep_view() == rows.deep_view(),
{
    let mut out: Table<Real> = Table::new();
    let end: usize = rows.len();
    let mut i: usize = 0;
    assert(rows.deep_view().take(0) =~= seq![]);
    while i < end
        invariant
            i <= end == rows.deep_view().len(),
            table::ordered(rows.deep_view()),
            out.deep_view() == rows.deep_view().take(i as int),
        decreases end - i,
    {
        let _ = out.insert(rows.name_at(i).clone(), rows.value_at(i).copy());
        proof {
            let all = rows.deep_view();
            table::lemma_put_last(all.take(i as int), all[i as int].0, all[i as int].1);
            assert(all.take(i as int).push(all[i as int]) =~= all.take(i + 1));
        }
        i += 1;
    }
    assert(rows.deep_view().take(end as int) =~= rows.deep_view());
    out
}

impl Rule {
    pub fn copy(&self) -> (rule: Rule)
        ensures
            rule.deep_view() == self.deep_view(),
    {
        Rule {
            category: self.category.clone(),
            weight: self.weight.copy(),
            free: self.free.copy(),
            full: self.full.copy(),
            enabled: self.enabled,
            params: copy_reals(&self.params),
        }
    }
}

impl Config {
    pub fn copy(&self) -> (config: Config)
        ensures
            config.deep_view() == self.deep_view(),
    {
        let mut rules: Table<Rule> = Table::new();
        let mut origins: Table<Origin> = Table::new();
        let end: usize = self.rules.len();
        let mut i: usize = 0;
        assert(self.rules.deep_view().take(0) =~= seq![]);
        while i < end
            invariant
                i <= end == self.rules.deep_view().len(),
                table::ordered(self.rules.deep_view()),
                rules.deep_view() == self.rules.deep_view().take(i as int),
            decreases end - i,
        {
            let _ = rules.insert(self.rules.name_at(i).clone(), self.rules.value_at(i).copy());
            proof {
                let all = self.rules.deep_view();
                table::lemma_put_last(all.take(i as int), all[i as int].0, all[i as int].1);
                assert(all.take(i as int).push(all[i as int]) =~= all.take(i + 1));
            }
            i += 1;
        }
        assert(self.rules.deep_view().take(end as int) =~= self.rules.deep_view());
        let last: usize = self.origins.len();
        let mut j: usize = 0;
        assert(self.origins.deep_view().take(0) =~= seq![]);
        while j < last
            invariant
                j <= last == self.origins.deep_view().len(),
                table::ordered(self.origins.deep_view()),
                origins.deep_view() == self.origins.deep_view().take(j as int),
            decreases last - j,
        {
            let _ = origins.insert(self.origins.name_at(j).clone(), *self.origins.value_at(j));
            proof {
                let all = self.origins.deep_view();
                table::lemma_put_last(all.take(j as int), all[j as int].0, all[j as int].1);
                assert(all.take(j as int).push(all[j as int]) =~= all.take(j + 1));
            }
            j += 1;
        }
        assert(self.origins.deep_view().take(last as int) =~= self.origins.deep_view());
        Config {
            rules,
            origins,
            min_score: self.min_score,
            exclude: text::copy_list(&self.exclude),
            loaded_from: match &self.loaded_from {
                Some(path) => Some(path.clone()),
                None => None,
            },
        }
    }
}

// --- defaults ----------------------------------------------------------------

pub open spec fn number(bits: u64, shown: Text) -> RealV {
    RealV { bits, text: shown }
}

fn quantity(bits: u64, shown: &str) -> (r: Real)
    ensures
        r.deep_view() == number(bits, shown@),
{
    Real { bits, text: shown.to_owned() }
}

pub open spec fn plain_rule(category: Text, weight: RealV, free: RealV, full: RealV) -> RuleV {
    RuleV { category, weight, free, full, enabled: true, params: seq![] }
}

fn add_rule(rules: &mut Table<Rule>, id: &str, category: &str, weight: Real, free: Real, full: Real)
    ensures
        final(rules).deep_view() == table::put(
            old(rules).deep_view(),
            id@,
            plain_rule(category@, weight.deep_view(), free.deep_view(), full.deep_view()),
        ),
{
    let rule = Rule {
        category: category.to_owned(),
        weight,
        free,
        full,
        enabled: true,
        params: Table::new(),
    };
    let _ = rules.insert(id.to_owned(), rule);
}

pub open spec fn default_quality() -> Seq<(Text, RuleV)> {
    let thirty = number(0x403e_0000_0000_0000, "30"@);
    let twenty_five = number(0x4039_0000_0000_0000, "25"@);
    let ten = number(0x4024_0000_0000_0000, "10"@);
    let one = number(0x3ff0_0000_0000_0000, "1"@);
    let rules = table::put(
        seq![],
        "result-string-density"@,
        plain_rule("quality"@, thirty, one, number(0x4034_0000_0000_0000, "20"@)),
    );
    let rules = table::put(
        rules,
        "broad-lint-silencing"@,
        plain_rule(
            "quality"@,
            twenty_five,
            number(0x3fd3_3333_3333_3333, "0.3"@),
            number(0x4000_0000_0000_0000, "2"@),
        ),
    );
    let rules = table::put(
        rules,
        "duplicated-bodies"@,
        plain_rule(
            "quality"@,
            ten,
            number(0x3fe0_0000_0000_0000, "0.5"@),
            number(0x4008_0000_0000_0000, "3"@),
        ),
    );
    table::put(
        rules,
        "undocumented-suppressions"@,
        plain_rule("quality"@, ten, one, number(0x4018_0000_0000_0000, "6"@)),
    )
}

/// The rules that are in force where nothing says otherwise. `oversized-files` is
/// one of them by name: no measure is taken for it, so it takes nothing off, and
/// its category, its weight and the thousand lines of its `max_lines` are values
/// chosen here for a file to change.
pub open spec fn default_rules() -> Seq<(Text, RuleV)> {
    let thirty = number(0x403e_0000_0000_0000, "30"@);
    let twenty = number(0x4034_0000_0000_0000, "20"@);
    let zero = number(0, "0"@);
    let rules = table::put(
        default_quality(),
        "exit-in-library"@,
        plain_rule(
            "containment"@,
            thirty,
            number(0x3ff0_0000_0000_0000, "1"@),
            number(0x402e_0000_0000_0000, "15"@),
        ),
    );
    let rules = table::put(
        rules,
        "bare-string-params"@,
        plain_rule(
            "legibility"@,
            twenty,
            number(0x3fbe_b851_eb85_1eb8, "0.12"@),
            number(0x3fd6_6666_6666_6666, "0.35"@),
        ),
    );
    let rules = table::put(
        rules,
        "unproven-spawn-targets"@,
        plain_rule(
            "legibility"@,
            thirty,
            number(0x3fc9_9999_9999_999a, "0.2"@),
            number(0x3fe9_9999_9999_999a, "0.8"@),
        ),
    );
    let rules = table::put(
        rules,
        "env-controlled-spawn"@,
        plain_rule("security"@, thirty, zero, number(0x4000_0000_0000_0000, "2"@)),
    );
    let rules = table::put(
        rules,
        "shell-invocation"@,
        plain_rule("security"@, twenty, zero, number(0x3ff0_0000_0000_0000, "1"@)),
    );
    table::put(
        rules,
        "oversized-files"@,
        RuleV {
            params: table::put(
                seq![],
                "max_lines"@,
                number(0x408f_4000_0000_0000, "1000"@),
            ),
            ..plain_rule(
                "legibility"@,
                twenty,
                number(0x400c_0000_0000_0000, "3.5"@),
                number(0x4028_0000_0000_0000, "12"@),
            )
        },
    )
}

fn one() -> (r: Real)
    ensures
        r.deep_view() == number(0x3ff0_0000_0000_0000, "1"@),
{
    quantity(0x3ff0_0000_0000_0000, "1")
}

fn ten() -> (r: Real)
    ensures
        r.deep_view() == number(0x4024_0000_0000_0000, "10"@),
{
    quantity(0x4024_0000_0000_0000, "10")
}

fn twenty() -> (r: Real)
    ensures
        r.deep_view() == number(0x4034_0000_0000_0000, "20"@),
{
    quantity(0x4034_0000_0000_0000, "20")
}

fn thirty() -> (r: Real)
    ensures
        r.deep_view() == number(0x403e_0000_0000_0000, "30"@),
{
    quantity(0x403e_0000_0000_0000, "30")
}

/// The calibrated defaults. Densities are per ten thousand lines of product
/// code.
pub fn defaults() -> (rules: Table<Rule>)
    ensures
        rules.deep_view() == default_rules(),
{
    let mut rules: Table<Rule> = Table::new();
    // Quality: reinvention and silencing.
    add_rule(&mut rules, "result-string-density", "quality", thirty(), one(), twenty());
    add_rule(
        &mut rules,
        "broad-lint-silencing",
        "quality",
        quantity(0x4039_0000_0000_0000, "25"),
        quantity(0x3fd3_3333_3333_3333, "0.3"),
        quantity(0x4000_0000_0000_0000, "2"),
    );
    add_rule(
        &mut rules,
        "duplicated-bodies",
        "quality",
        ten(),
        quantity(0x3fe0_0000_0000_0000, "0.5"),
        quantity(0x4008_0000_0000_0000, "3"),
    );
    add_rule(
        &mut rules,
        "undocumented-suppressions",
        "quality",
        ten(),
        one(),
        quantity(0x4018_0000_0000_0000, "6"),
    );
    assert(rules.deep_view() == default_quality());
    // Containment: effects escaping the crate that should own them.
    add_rule(
        &mut rules,
        "exit-in-library",
        "containment",
        thirty(),
        one(),
        quantity(0x402e_0000_0000_0000, "15"),
    );
    // Legibility: what the tool, and the next author, can follow.
    add_rule(
        &mut rules,
        "bare-string-params",
        "legibility",
        twenty(),
        quantity(0x3fbe_b851_eb85_1eb8, "0.12"),
        quantity(0x3fd6_6666_6666_6666, "0.35"),
    );
    add_rule(
        &mut rules,
        "unproven-spawn-targets",
        "legibility",
        thirty(),
        quantity(0x3fc9_9999_9999_999a, "0.2"),
        quantity(0x3fe9_9999_9999_999a, "0.8"),
    );
    // Security: reach that an attacker could steer.
    add_rule(
        &mut rules,
        "env-controlled-spawn",
        "security",
        thirty(),
        quantity(0, "0"),
        quantity(0x4000_0000_0000_0000, "2"),
    );
    add_rule(&mut rules, "shell-invocation", "security", twenty(), quantity(0, "0"), one());
    let mut params: Table<Real> = Table::new();
    let _ = params.insert("max_lines".to_owned(), quantity(0x408f_4000_0000_0000, "1000"));
    let files = Rule {
        category: "legibility".to_owned(),
        weight: twenty(),
        free: quantity(0x400c_0000_0000_0000, "3.5"),
        full: quantity(0x4028_0000_0000_0000, "12"),
        enabled: true,
        params,
    };
    let _ = rules.insert("oversized-files".to_owned(), files);
    rules
}

// --- the file ----------------------------------------------------------------

/// A patch's parameters laid over a rule's, the first `n` of them.
pub open spec fn params_set(
    params: Seq<(Text, RealV)>,
    given: Seq<(Text, RealV)>,
    n: nat,
) -> Seq<(Text, RealV)>
    decreases n,
{
    if n == 0 {
        params
    } else {
        table::put(
            params_set(params, given, (n - 1) as nat),
            given[n - 1].0,
            given[n - 1].1,
        )
    }
}

pub open spec fn patched(rule: RuleV, patch: PatchV) -> RuleV {
    RuleV {
        category: match patch.category {
            Some(v) => v,
            None => rule.category,
        },
        weight: match patch.weight {
            Some(v) => v,
            None => rule.weight,
        },
        free: match patch.free {
            Some(v) => v,
            None => rule.free,
        },
        full: match patch.full {
            Some(v) => v,
            None => rule.full,
        },
        enabled: match patch.enabled {
            Some(v) => v,
            None => rule.enabled,
        },
        params: params_set(rule.params, patch.params, patch.params.len()),
    }
}

/// Changes what a patch mentions and leaves the rest alone.
pub fn apply(rule: &mut Rule, patch: &RulePatch)
    ensures
        final(rule).deep_view() == patched(old(rule).deep_view(), patch.deep_view()),
{
    if let Some(v) = &patch.weight {
        rule.weight = v.copy();
    }
    if let Some(v) = &patch.free {
        rule.free = v.copy();
    }
    if let Some(v) = &patch.full {
        rule.full = v.copy();
    }
    if let Some(v) = patch.enabled {
        rule.enabled = v;
    }
    if let Some(v) = &patch.category {
        rule.category = v.clone();
    }
    let ghost here = rule.deep_view();
    let mut i: usize = 0;
    while i < patch.params.len()
        invariant
            i <= patch.params.len(),
            rule.deep_view() == (RuleV {
                params: params_set(here.params, patch.params.deep_view(), i as nat),
                ..here
            }),
        decreases patch.params.len() - i,
    {
        let row = &patch.params[i];
        assert(patch.params.deep_view()[i as int] == (row.0@, row.1.deep_view()));
        let _ = rule.params.insert(row.0.clone(), row.1.copy());
        i += 1;
    }
}

/// The rules, and where each came from.
pub struct Layered {
    pub rules: Seq<(Text, RuleV)>,
    pub origins: Seq<(Text, Origin)>,
}

pub open spec fn all_from(rules: Seq<(Text, RuleV)>, n: nat) -> Seq<(Text, Origin)>
    decreases n,
{
    if n == 0 {
        seq![]
    } else {
        table::put(all_from(rules, (n - 1) as nat), rules[n - 1].0, Origin::Default)
    }
}

/// The rules with the first `n` patches of a file, or what is wrong with them.
pub open spec fn with_file(
    start: Layered,
    path: Text,
    rules: Seq<(Text, PatchV)>,
    n: nat,
) -> Result<Layered, Text>
    decreases n,
{
    if n == 0 {
        Ok(start)
    } else {
        match with_file(start, path, rules, (n - 1) as nat) {
            Err(e) => Err(e),
            Ok(here) => {
                let (id, patch) = rules[n - 1];
                match table::lookup(here.rules, id) {
                    None => Err(
                        path + ": no rule named '"@ + id
                            + "'. Run `cqx score --explain` for the list."@,
                    ),
                    Some(rule) => Ok(
                        Layered {
                            rules: table::put(here.rules, id, patched(rule, patch)),
                            origins: table::put(here.origins, id, Origin::File),
                        },
                    ),
                }
            },
        }
    }
}

/// What went wrong stays wrong.
proof fn lemma_file_wrong(
    start: Layered,
    path: Text,
    rules: Seq<(Text, PatchV)>,
    at: nat,
    n: nat,
)
    requires
        at <= n,
        with_file(start, path, rules, at) is Err,
    ensures
        with_file(start, path, rules, n) == with_file(start, path, rules, at),
    decreases n,
{
    if at < n {
        lemma_file_wrong(start, path, rules, at, (n - 1) as nat);
    }
}

fn take_file(
    rules: &mut Table<Rule>,
    origins: &mut Table<Origin>,
    path: &str,
    file: &ConfigFile,
) -> (r: Result<(), String>)
    ensures
        ({
            let start = Layered {
                rules: old(rules).deep_view(),
                origins: old(origins).deep_view(),
            };
            let done = with_file(start, path@, file.rules.deep_view(), file.rules.deep_view().len());
            match r {
                Ok(_) => done == Ok::<Layered, Text>(
                    Layered {
                        rules: final(rules).deep_view(),
                        origins: final(origins).deep_view(),
                    },
                ),
                Err(e) => done == Err::<Layered, Text>(e@),
            }
        }),
{
    let ghost start = Layered { rules: rules.deep_view(), origins: origins.deep_view() };
    let ghost all = file.rules.deep_view();
    let mut i: usize = 0;
    let end: usize = file.rules.len();
    while i < end
        invariant
            i <= end == file.rules.deep_view().len(),
            all == file.rules.deep_view(),
            start.rules == old(rules).deep_view(),
            start.origins == old(origins).deep_view(),
            with_file(start, path@, all, i as nat) == Ok::<Layered, Text>(
                Layered { rules: rules.deep_view(), origins: origins.deep_view() },
            ),
        decreases end - i,
    {
        let id = file.rules.name_at(i);
        let patch = file.rules.value_at(i);
        assert(all[i as int] == (id@, patch.deep_view()));
        let mut rule = match rules.get(id.as_str()) {
            Some(rule) => rule.copy(),
            None => {
                proof {
                    lemma_file_wrong(start, path@, all, (i + 1) as nat, all.len());
                }
                return Err(
                    text::cat4(
                        path,
                        ": no rule named '",
                        id.as_str(),
                        "'. Run `cqx score --explain` for the list.",
                    ),
                );
            },
        };
        apply(&mut rule, patch);
        let _ = rules.insert(id.clone(), rule);
        let _ = origins.insert(id.clone(), Origin::File);
        i += 1;
    }
    Ok(())
}

/// A number that may be left out.
pub open spec fn number_read(j: Option<JsonV>) -> Option<Option<RealV>> {
    match j {
        None => Some(None),
        Some(JsonV::Null) => Some(None),
        Some(v) => match json::real_of(v) {
            Some(r) => Some(Some(r)),
            None => None,
        },
    }
}

fn read_number(j: Option<&Json>) -> (r: Option<Option<Real>>)
    ensures
        r.deep_view() == number_read(j.deep_view()),
{
    match j {
        None => Some(None),
        Some(Json::Null) => Some(None),
        Some(v) => match v.as_real() {
            Some(r) => Some(Some(r)),
            None => None,
        },
    }
}

pub open spec fn flag_read(j: Option<JsonV>) -> Option<Option<bool>> {
    match j {
        None => Some(None),
        Some(JsonV::Null) => Some(None),
        Some(JsonV::Bool(b)) => Some(Some(b)),
        _ => None,
    }
}

pub open spec fn word_read(j: Option<JsonV>) -> Option<Option<Text>> {
    match j {
        None => Some(None),
        Some(JsonV::Null) => Some(None),
        Some(JsonV::Str(s)) => Some(Some(s)),
        _ => None,
    }
}

/// The first `n` parameters, when every one is a number.
pub open spec fn params_read(fields: Seq<(Text, JsonV)>, n: nat) -> Option<Seq<(Text, RealV)>>
    decreases n,
{
    if n == 0 {
        Some(seq![])
    } else {
        match (params_read(fields, (n - 1) as nat), json::real_of(fields[n - 1].1)) {
            (Some(before), Some(r)) => Some(before.push((fields[n - 1].0, r))),
            _ => None,
        }
    }
}

proof fn lemma_params_refused(fields: Seq<(Text, JsonV)>, at: nat, n: nat)
    requires
        at <= n,
        params_read(fields, at) is None,
    ensures
        params_read(fields, n) is None,
    decreases n,
{
    if at < n {
        lemma_params_refused(fields, at, (n - 1) as nat);
    }
}

pub open spec fn all_params_read(j: Option<JsonV>) -> Option<Seq<(Text, RealV)>> {
    match j {
        None => Some(seq![]),
        Some(JsonV::Null) => Some(seq![]),
        Some(JsonV::Object(fields)) => params_read(fields, fields.len()),
        _ => None,
    }
}

fn read_params(j: Option<&Json>) -> (r: Option<Vec<(String, Real)>>)
    ensures
        r.deep_view() == all_params_read(j.deep_view()),
{
    let mut out: Vec<(String, Real)> = Vec::new();
    assert(out.deep_view() =~= seq![]);
    let value = match j {
        None => return Some(out),
        Some(Json::Null) => return Some(out),
        Some(value) => value,
    };
    let fields = match value.as_object() {
        Some(fields) => fields,
        None => return None,
    };
    let ghost all = fields.deep_view();
    let mut i: usize = 0;
    while i < fields.len()
        invariant
            i <= fields.len(),
            all == fields.deep_view(),
            j.deep_view() == Some(JsonV::Object(all)),
            params_read(all, i as nat) == Some(out.deep_view()),
        decreases fields.len() - i,
    {
        assert(all[i as int] == (fields@[i as int].0@, fields@[i as int].1.deep_view()));
        match fields[i].1.as_real() {
            Some(r) => text::push(&mut out, (fields[i].0.clone(), r)),
            None => {
                proof {
                    lemma_params_refused(all, (i + 1) as nat, all.len());
                }
                return None;
            },
        }
        i += 1;
    }
    Some(out)
}

/// A patch as a list has it.
pub open spec fn patch_names() -> Seq<Text> {
    seq!["weight"@, "free"@, "full"@, "enabled"@, "category"@, "params"@]
}

/// The patch of some fields, when every one is of its kind. What it does not
/// know it passes over.
pub open spec fn patch_of(fields: Seq<(Text, JsonV)>) -> Option<PatchV> {
    match (
        number_read(table::lookup(fields, "weight"@)),
        number_read(table::lookup(fields, "free"@)),
        number_read(table::lookup(fields, "full"@)),
        flag_read(table::lookup(fields, "enabled"@)),
        word_read(table::lookup(fields, "category"@)),
        all_params_read(table::lookup(fields, "params"@)),
    ) {
        (Some(weight), Some(free), Some(full), Some(enabled), Some(category), Some(params)) => Some(
            PatchV { weight, free, full, enabled, category, params },
        ),
        _ => None,
    }
}

/// The patch a value stands for: an object by its fields, or a list by its
/// items.
pub open spec fn patch_read(j: JsonV) -> Option<PatchV> {
    match json::record_of(j, patch_names(), patch_names(), 5) {
        Some(fields) => patch_of(fields),
        None => None,
    }
}

fn read_patch(j: &Json) -> (patch: Option<RulePatch>)
    ensures
        patch.deep_view() == patch_read(j.deep_view()),
{
    let names = json::words(&["weight", "free", "full", "enabled", "category", "params"]);
    assert(names.deep_view() =~= patch_names());
    match j.as_object() {
        Some(fields) => {
            if said::are_once(fields, &names) {
                return read_patch_of(fields);
            }
            return None;
        },
        None => {},
    }
    let items = match j.as_list() {
        Some(items) => items,
        None => return None,
    };
    match json::list_fields(items, &names, 5) {
        Some(fields) => read_patch_of(&fields),
        None => None,
    }
}

fn read_patch_of(fields: &Vec<(String, Json)>) -> (patch: Option<RulePatch>)
    ensures
        patch.deep_view() == patch_of(fields.deep_view()),
{
    let weight = match read_number(json::field(fields, "weight")) {
        Some(v) => v,
        None => return None,
    };
    let free = match read_number(json::field(fields, "free")) {
        Some(v) => v,
        None => return None,
    };
    let full = match read_number(json::field(fields, "full")) {
        Some(v) => v,
        None => return None,
    };
    let enabled = match json::field(fields, "enabled") {
        None => None,
        Some(Json::Null) => None,
        Some(Json::Bool(b)) => Some(*b),
        _ => return None,
    };
    let category = match json::field(fields, "category") {
        None => None,
        Some(Json::Null) => None,
        Some(Json::Str(s)) => Some(s.clone()),
        _ => return None,
    };
    let params = match read_params(json::field(fields, "params")) {
        Some(v) => v,
        None => return None,
    };
    Some(RulePatch { weight, free, full, enabled, category, params })
}

/// The first `n` patches, when every one is one.
pub open spec fn patches_read(fields: Seq<(Text, JsonV)>, n: nat) -> Option<Seq<(Text, PatchV)>>
    decreases n,
{
    if n == 0 {
        Some(seq![])
    } else {
        match (patches_read(fields, (n - 1) as nat), patch_read(fields[n - 1].1)) {
            (Some(before), Some(p)) => Some(table::put(before, fields[n - 1].0, p)),
            _ => None,
        }
    }
}

proof fn lemma_patches_refused(fields: Seq<(Text, JsonV)>, at: nat, n: nat)
    requires
        at <= n,
        patches_read(fields, at) is None,
    ensures
        patches_read(fields, n) is None,
    decreases n,
{
    if at < n {
        lemma_patches_refused(fields, at, (n - 1) as nat);
    }
}

pub open spec fn rules_read(j: Option<JsonV>) -> Option<Seq<(Text, PatchV)>> {
    match j {
        None => Some(seq![]),
        Some(JsonV::Object(fields)) => patches_read(fields, fields.len()),
        _ => None,
    }
}

fn read_rules(j: Option<&Json>) -> (r: Option<Table<RulePatch>>)
    ensures
        r.deep_view() == rules_read(j.deep_view()),
{
    let mut out: Table<RulePatch> = Table::new();
    let value = match j {
        None => return Some(out),
        Some(value) => value,
    };
    let fields = match value.as_object() {
        Some(fields) => fields,
        None => return None,
    };
    let ghost all = fields.deep_view();
    let mut i: usize = 0;
    while i < fields.len()
        invariant
            i <= fields.len(),
            all == fields.deep_view(),
            j.deep_view() == Some(JsonV::Object(all)),
            patches_read(all, i as nat) == Some(out.deep_view()),
        decreases fields.len() - i,
    {
        assert(all[i as int] == (fields@[i as int].0@, fields@[i as int].1.deep_view()));
        match read_patch(&fields[i].1) {
            Some(p) => {
                let _ = out.insert(fields[i].0.clone(), p);
            },
            None => {
                proof {
                    lemma_patches_refused(all, (i + 1) as nat, all.len());
                }
                return None;
            },
        }
        i += 1;
    }
    Some(out)
}

/// The first `n` paths, when every one is a text.
pub open spec fn paths_read(items: Seq<JsonV>, n: nat) -> Option<Seq<Text>>
    decreases n,
{
    if n == 0 {
        Some(seq![])
    } else {
        match (paths_read(items, (n - 1) as nat), items[n - 1]) {
            (Some(before), JsonV::Str(s)) => Some(before.push(s)),
            _ => None,
        }
    }
}

proof fn lemma_paths_refused(items: Seq<JsonV>, at: nat, n: nat)
    requires
        at <= n,
        paths_read(items, at) is None,
    ensures
        paths_read(items, n) is None,
    decreases n,
{
    if at < n {
        lemma_paths_refused(items, at, (n - 1) as nat);
    }
}

pub open spec fn exclude_read(j: Option<JsonV>) -> Option<Seq<Text>> {
    match j {
        None => Some(seq![]),
        Some(JsonV::List(items)) => paths_read(items, items.len()),
        _ => None,
    }
}

fn read_exclude(j: Option<&Json>) -> (r: Option<Vec<String>>)
    ensures
        r.deep_view() == exclude_read(j.deep_view()),
{
    let mut out: Vec<String> = Vec::new();
    assert(out.deep_view() =~= seq![]);
    let value = match j {
        None => return Some(out),
        Some(value) => value,
    };
    let items = match value.as_list() {
        Some(items) => items,
        None => return None,
    };
    let ghost all = items.deep_view();
    let mut i: usize = 0;
    while i < items.len()
        invariant
            i <= items.len(),
            all == items.deep_view(),
            j.deep_view() == Some(JsonV::List(all)),
            paths_read(all, i as nat) == Some(out.deep_view()),
        decreases items.len() - i,
    {
        assert(all[i as int] == items@[i as int].deep_view());
        match &items[i] {
            Json::Str(s) => text::push(&mut out, s.clone()),
            _ => {
                proof {
                    lemma_paths_refused(all, (i + 1) as nat, all.len());
                }
                return None;
            },
        }
        i += 1;
    }
    Some(out)
}

pub open spec fn count_read(j: JsonV) -> Option<u32> {
    match j {
        JsonV::Whole(n) => if n <= u32::MAX {
            Some(n as u32)
        } else {
            None
        },
        _ => None,
    }
}

pub open spec fn floor_read(j: Option<JsonV>) -> Option<Option<u32>> {
    match j {
        None => Some(None),
        Some(JsonV::Null) => Some(None),
        Some(v) => match count_read(v) {
            Some(n) => Some(Some(n)),
            None => None,
        },
    }
}

/// A configuration as a list has it.
pub open spec fn file_names() -> Seq<Text> {
    seq!["version"@, "rules"@, "min_score"@, "exclude"@]
}

/// The configuration of some fields, when every one is of its kind.
pub open spec fn file_of(fields: Seq<(Text, JsonV)>) -> Option<FileV> {
    let version = match table::lookup(fields, "version"@) {
        None => Some(0u32),
        Some(v) => count_read(v),
    };
    match (
        version,
        rules_read(table::lookup(fields, "rules"@)),
        floor_read(table::lookup(fields, "min_score"@)),
        exclude_read(table::lookup(fields, "exclude"@)),
    ) {
        (Some(version), Some(rules), Some(min_score), Some(exclude)) => Some(
            FileV { version, rules, min_score, exclude },
        ),
        _ => None,
    }
}

/// The configuration a document is: an object by its fields, or a list by its
/// items.
pub open spec fn file_read(j: JsonV) -> Option<FileV> {
    match json::record_of(j, file_names(), file_names(), 0) {
        Some(fields) => file_of(fields),
        None => None,
    }
}

/// The configuration that a text says.
pub open spec fn file_said(source: Text) -> Option<FileV> {
    match said::heard(source) {
        Some(j) => file_read(j),
        None => None,
    }
}

/// A configuration in which a setting holds a value that is only passed over is
/// refused, and so is a patch.
pub proof fn lemma_passed_over(fields: Seq<(Text, JsonV)>, key: Text)
    requires
        table::lookup(fields, key) == Some(said::passed_over()),
    ensures
        file_names().contains(key) ==> file_read(JsonV::Object(fields)) is None,
        patch_names().contains(key) ==> patch_read(JsonV::Object(fields)) is None,
        patch_read(said::passed_over()) is None,
{
    let none = said::passed_over()->List_0;
    assert(none.len() == 1 && none[0] is Object);
}

fn read_count(j: &Json) -> (n: Option<u32>)
    ensures
        n == count_read(j.deep_view()),
{
    match j {
        Json::Whole(n) => if *n <= u32::MAX as u64 {
            Some(*n as u32)
        } else {
            None
        },
        _ => None,
    }
}

impl ConfigFile {
    /// Takes a document for a configuration, when it is one.
    pub fn from_json(j: &Json) -> (file: Option<ConfigFile>)
        ensures
            file.deep_view() == file_read(j.deep_view()),
    {
        let names = json::words(&["version", "rules", "min_score", "exclude"]);
        assert(names.deep_view() =~= file_names());
        match j.as_object() {
            Some(fields) => {
                if said::are_once(fields, &names) {
                    return ConfigFile::from_fields(fields);
                }
                return None;
            },
            None => {},
        }
        let items = match j.as_list() {
            Some(items) => items,
            None => return None,
        };
        match json::list_fields(items, &names, 0) {
            Some(fields) => ConfigFile::from_fields(&fields),
            None => None,
        }
    }

    fn from_fields(fields: &Vec<(String, Json)>) -> (file: Option<ConfigFile>)
        ensures
            file.deep_view() == file_of(fields.deep_view()),
    {
        let version = match json::field(fields, "version") {
            None => 0u32,
            Some(v) => match read_count(v) {
                Some(n) => n,
                None => return None,
            },
        };
        let rules = match read_rules(json::field(fields, "rules")) {
            Some(v) => v,
            None => return None,
        };
        let min_score = match json::field(fields, "min_score") {
            None => None,
            Some(Json::Null) => None,
            Some(v) => match read_count(v) {
                Some(n) => Some(n),
                None => return None,
            },
        };
        let exclude = match read_exclude(json::field(fields, "exclude")) {
            Some(v) => v,
            None => return None,
        };
        Some(ConfigFile { version, rules, min_score, exclude })
    }

    /// Reads a configuration, or says what is wrong with it.
    pub fn read(source: &str) -> (file: Result<ConfigFile, String>)
        ensures
            match file {
                Ok(f) => file_said(source@) == Some(f.deep_view()),
                Err(e) => file_said(source@) is None && match said::json_passed(source@) {
                    Err(words) => e@ == words,
                    Ok(_) => e@ == (if said::heard(source@) is Some {
                        "not a configuration"@
                    } else {
                        "not a value"@
                    }),
                },
            },
    {
        match said::read(source) {
            Err(e) => Err(e),
            Ok(j) => match ConfigFile::from_json(&j) {
                Some(file) => Ok(file),
                None => Err("not a configuration".to_owned()),
            },
        }
    }
}

// --- the environment ---------------------------------------------------------

/// What an environment variable holds: its text, and the number that text is,
/// where it is one.
pub struct EnvValue {
    pub text: String,
    pub number: Option<Real>,
}

pub struct EnvV {
    pub text: Text,
    pub number: Option<RealV>,
}

impl DeepView for EnvValue {
    type V = EnvV;

    open spec fn deep_view(&self) -> EnvV {
        EnvV { text: self.text@, number: self.number.deep_view() }
    }
}

/// The variable that sets one field of a rule.
pub open spec fn variable(id: Text, field: Text) -> Text {
    "CQX_RULE_"@ + text::replaced(text::upper_of(id), '-', "_"@) + "_"@ + field
}

fn variable_name(id: &str, field: &str) -> (s: String)
    ensures
        s@ == variable(id@, field@),
{
    let key = text::replace(text::upper(id).as_str(), '-', "_");
    text::cat4("CQX_RULE_", key.as_str(), "_", field)
}

/// A number as the environment leaves it, or what is wrong with what it says.
pub open spec fn env_number(
    env: Seq<(Text, EnvV)>,
    id: Text,
    field: Text,
    held: RealV,
) -> Result<RealV, Text> {
    match table::lookup(env, variable(id, field)) {
        None => Ok(held),
        Some(v) => match v.number {
            Some(n) => Ok(n),
            None => Err(variable(id, field) + " is not a number"@),
        },
    }
}

fn take_number(env: &Table<EnvValue>, id: &str, field: &str, held: &Real) -> (r: Result<
    Real,
    String,
>)
    ensures
        match r {
            Ok(n) => env_number(env.deep_view(), id@, field@, held.deep_view()) == Ok::<
                RealV,
                Text,
            >(n.deep_view()),
            Err(e) => env_number(env.deep_view(), id@, field@, held.deep_view()) == Err::<
                RealV,
                Text,
            >(e@),
        },
{
    let name = variable_name(id, field);
    match env.get(name.as_str()) {
        None => Ok(held.copy()),
        Some(v) => match &v.number {
            Some(n) => Ok(n.copy()),
            None => Err(text::cat(name.as_str(), " is not a number")),
        },
    }
}

pub open spec fn means_yes(s: Text) -> bool {
    let low = text::lower_of(s);
    low == "1"@ || low == "true"@ || low == "yes"@
}

/// One rule as the environment leaves it.
pub open spec fn env_rule(env: Seq<(Text, EnvV)>, id: Text, rule: RuleV) -> Result<RuleV, Text> {
    match env_number(env, id, "WEIGHT"@, rule.weight) {
        Err(e) => Err(e),
        Ok(weight) => match env_number(env, id, "FREE"@, rule.free) {
            Err(e) => Err(e),
            Ok(free) => match env_number(env, id, "FULL"@, rule.full) {
                Err(e) => Err(e),
                Ok(full) => Ok(
                    RuleV {
                        weight,
                        free,
                        full,
                        enabled: match table::lookup(env, variable(id, "ENABLED"@)) {
                            Some(v) => means_yes(v.text),
                            None => rule.enabled,
                        },
                        ..rule
                    },
                ),
            },
        },
    }
}

pub open spec fn env_touches(env: Seq<(Text, EnvV)>, id: Text) -> bool {
    table::lookup(env, variable(id, "WEIGHT"@)) is Some || table::lookup(
        env,
        variable(id, "FREE"@),
    ) is Some || table::lookup(env, variable(id, "FULL"@)) is Some || table::lookup(
        env,
        variable(id, "ENABLED"@),
    ) is Some
}

/// The first `n` rules as the environment leaves them.
pub open spec fn with_env(
    start: Layered,
    env: Seq<(Text, EnvV)>,
    n: nat,
) -> Result<Layered, Text>
    decreases n,
{
    if n == 0 {
        Ok(start)
    } else {
        match with_env(start, env, (n - 1) as nat) {
            Err(e) => Err(e),
            Ok(here) => {
                let (id, rule) = start.rules[n - 1];
                match env_rule(env, id, rule) {
                    Err(e) => Err(e),
                    Ok(rule) => Ok(
                        Layered {
                            rules: table::put(here.rules, id, rule),
                            origins: if env_touches(env, id) {
                                table::put(here.origins, id, Origin::Env)
                            } else {
                                here.origins
                            },
                        },
                    ),
                }
            },
        }
    }
}

proof fn lemma_env_wrong(start: Layered, env: Seq<(Text, EnvV)>, at: nat, n: nat)
    requires
        at <= n,
        with_env(start, env, at) is Err,
    ensures
        with_env(start, env, n) == with_env(start, env, at),
    decreases n,
{
    if at < n {
        lemma_env_wrong(start, env, at, (n - 1) as nat);
    }
}

fn take_rule(env: &Table<EnvValue>, id: &str, rule: &Rule) -> (r: Result<Rule, String>)
    ensures
        match r {
            Ok(v) => env_rule(env.deep_view(), id@, rule.deep_view()) == Ok::<RuleV, Text>(
                v.deep_view(),
            ),
            Err(e) => env_rule(env.deep_view(), id@, rule.deep_view()) == Err::<RuleV, Text>(e@),
        },
{
    let mut out = rule.copy();
    match take_number(env, id, "WEIGHT", &rule.weight) {
        Ok(n) => out.weight = n,
        Err(e) => return Err(e),
    }
    match take_number(env, id, "FREE", &rule.free) {
        Ok(n) => out.free = n,
        Err(e) => return Err(e),
    }
    match take_number(env, id, "FULL", &rule.full) {
        Ok(n) => out.full = n,
        Err(e) => return Err(e),
    }
    if let Some(v) = env.get(variable_name(id, "ENABLED").as_str()) {
        let low = text::lower(v.text.as_str());
        out.enabled = text::same(low.as_str(), "1") || text::same(low.as_str(), "true")
            || text::same(low.as_str(), "yes");
    }
    Ok(out)
}

fn is_touched(env: &Table<EnvValue>, id: &str) -> (r: bool)
    ensures
        r == env_touches(env.deep_view(), id@),
{
    env.contains(variable_name(id, "WEIGHT").as_str()) || env.contains(
        variable_name(id, "FREE").as_str(),
    ) || env.contains(variable_name(id, "FULL").as_str()) || env.contains(
        variable_name(id, "ENABLED").as_str(),
    )
}

fn take_env(rules: &Table<Rule>, origins: &mut Table<Origin>, env: &Table<EnvValue>) -> (r: Result<
    Table<Rule>,
    String,
>)
    ensures
        ({
            let start = Layered {
                rules: rules.deep_view(),
                origins: old(origins).deep_view(),
            };
            let done = with_env(start, env.deep_view(), rules.deep_view().len());
            match r {
                Ok(out) => done == Ok::<Layered, Text>(
                    Layered { rules: out.deep_view(), origins: final(origins).deep_view() },
                ),
                Err(e) => done == Err::<Layered, Text>(e@),
            }
        }),
{
    let ghost start = Layered { rules: rules.deep_view(), origins: origins.deep_view() };
    let mut out: Table<Rule> = Table::new();
    let end: usize = rules.len();
    let mut k: usize = 0;
    assert(rules.deep_view().take(0) =~= seq![]);
    while k < end
        invariant
            k <= end == rules.deep_view().len(),
            table::ordered(rules.deep_view()),
            out.deep_view() == rules.deep_view().take(k as int),
        decreases end - k,
    {
        let _ = out.insert(rules.name_at(k).clone(), rules.value_at(k).copy());
        proof {
            let all = rules.deep_view();
            table::lemma_put_last(all.take(k as int), all[k as int].0, all[k as int].1);
            assert(all.take(k as int).push(all[k as int]) =~= all.take(k + 1));
        }
        k += 1;
    }
    assert(rules.deep_view().take(end as int) =~= rules.deep_view());
    let mut i: usize = 0;
    while i < end
        invariant
            i <= end == rules.deep_view().len(),
            start.rules == rules.deep_view(),
            start.origins == old(origins).deep_view(),
            with_env(start, env.deep_view(), i as nat) == Ok::<Layered, Text>(
                Layered { rules: out.deep_view(), origins: origins.deep_view() },
            ),
        decreases end - i,
    {
        let id = rules.name_at(i);
        match take_rule(env, id.as_str(), rules.value_at(i)) {
            Ok(rule) => {
                let _ = out.insert(id.clone(), rule);
                if is_touched(env, id.as_str()) {
                    let _ = origins.insert(id.clone(), Origin::Env);
                }
            },
            Err(e) => {
                proof {
                    lemma_env_wrong(
                        start,
                        env.deep_view(),
                        (i + 1) as nat,
                        rules.deep_view().len(),
                    );
                }
                return Err(e);
            },
        }
        i += 1;
    }
    Ok(out)
}

// --- all of it ---------------------------------------------------------------

/// A ramp that does not rise.
pub open spec fn flat(rule: RuleV) -> bool {
    measure::below(rule.full.bits, rule.free.bits) || measure::level_with(
        rule.full.bits,
        rule.free.bits,
    )
}

/// What is wrong with the first of the rules, from the `i`th on, whose ramp
/// does not rise.
pub open spec fn ramp_fault(rules: Seq<(Text, RuleV)>, i: nat) -> Option<Text>
    decreases rules.len() - i,
{
    if i >= rules.len() {
        None
    } else if flat(rules[i as int].1) {
        let (id, rule) = rules[i as int];
        Some(
            "rule '"@ + id + "': full ("@ + rule.full.text + ") must be greater than free ("@
                + rule.free.text + ")"@,
        )
    } else {
        ramp_fault(rules, i + 1)
    }
}

fn find_flat(rules: &Table<Rule>) -> (fault: Option<String>)
    ensures
        fault.deep_view() == ramp_fault(rules.deep_view(), 0),
{
    let end: usize = rules.len();
    let mut i: usize = 0;
    while i < end
        invariant
            i <= end == rules.deep_view().len(),
            ramp_fault(rules.deep_view(), 0) == ramp_fault(rules.deep_view(), i as nat),
        decreases end - i,
    {
        let rule = rules.value_at(i);
        if measure::is_below(rule.full.bits, rule.free.bits) || measure::is_level(
            rule.full.bits,
            rule.free.bits,
        ) {
            let head = text::cat4(
                "rule '",
                rules.name_at(i).as_str(),
                "': full (",
                rule.full.text.as_str(),
            );
            return Some(
                text::cat4(
                    head.as_str(),
                    ") must be greater than free (",
                    rule.free.text.as_str(),
                    ")",
                ),
            );
        }
        i += 1;
    }
    None
}

/// The floor that the environment asks for, where it asks.
pub open spec fn env_floor(env: Seq<(Text, EnvV)>, held: Option<u32>) -> Option<u32> {
    match table::lookup(env, "CQX_MIN_SCORE"@) {
        Some(v) => text::small_number(v.text),
        None => held,
    }
}

/// The layers over the defaults: a file, then the environment.
pub open spec fn layered(file: Option<(Text, FileV)>, env: Seq<(Text, EnvV)>) -> Result<
    Layered,
    Text,
> {
    let start = Layered {
        rules: default_rules(),
        origins: all_from(default_rules(), default_rules().len()),
    };
    let filed = match file {
        None => Ok(start),
        Some((path, f)) => if f.version > 1 {
            Err(
                path + ": config version "@ + text::decimal_of(f.version as nat)
                    + " is newer than this build understands (1)"@,
            )
        } else {
            with_file(start, path, f.rules, f.rules.len())
        },
    };
    match filed {
        Err(e) => Err(e),
        Ok(here) => with_env(here, env, here.rules.len()),
    }
}

/// The configuration that is in force, or why there is none.
pub open spec fn resolved(file: Option<(Text, FileV)>, env: Seq<(Text, EnvV)>) -> Result<
    ConfigV,
    Text,
> {
    match layered(file, env) {
        Err(e) => Err(e),
        Ok(here) => match ramp_fault(here.rules, 0) {
            Some(fault) => Err(fault),
            None => Ok(
                ConfigV {
                    rules: here.rules,
                    origins: here.origins,
                    min_score: env_floor(
                        env,
                        match file {
                            Some((_, f)) => f.min_score,
                            None => None,
                        },
                    ),
                    exclude: match file {
                        Some((_, f)) => f.exclude,
                        None => seq![],
                    },
                    loaded_from: match file {
                        Some((path, _)) => Some(path),
                        None => None,
                    },
                },
            ),
        },
    }
}

impl Config {
    /// Applies the layers in order and records where each rule came from.
    pub fn resolve(file: Option<(String, ConfigFile)>, env: &Table<EnvValue>) -> (r: Result<
        Config,
        String,
    >)
        ensures
            match r {
                Ok(c) => resolved(file.deep_view(), env.deep_view()) == Ok::<ConfigV, Text>(
                    c.deep_view(),
                ),
                Err(e) => resolved(file.deep_view(), env.deep_view()) == Err::<ConfigV, Text>(e@),
            },
    {
        let mut rules = defaults();
        let mut origins: Table<Origin> = Table::new();
        let end: usize = rules.len();
        let mut i: usize = 0;
        while i < end
            invariant
                i <= end == rules.deep_view().len(),
                rules.deep_view() == default_rules(),
                origins.deep_view() == all_from(rules.deep_view(), i as nat),
            decreases end - i,
        {
            let _ = origins.insert(rules.name_at(i).clone(), Origin::Default);
            i += 1;
        }
        let mut min_score: Option<u32> = None;
        let mut exclude: Vec<String> = Vec::new();
        let mut loaded_from: Option<String> = None;
        assert(exclude.deep_view() =~= seq![]);
        if let Some((path, file)) = file {
            if file.version > 1 {
                return Err(
                    text::cat4(
                        path.as_str(),
                        ": config version ",
                        text::decimal(file.version as u64).as_str(),
                        " is newer than this build understands (1)",
                    ),
                );
            }
            match take_file(&mut rules, &mut origins, path.as_str(), &file) {
                Ok(_) => {},
                Err(e) => return Err(e),
            }
            min_score = file.min_score;
            exclude = file.exclude;
            loaded_from = Some(path);
        }
        let rules = match take_env(&rules, &mut origins, env) {
            Ok(rules) => rules,
            Err(e) => return Err(e),
        };
        if let Some(v) = env.get("CQX_MIN_SCORE") {
            min_score = text::parse_small(v.text.as_str());
        }
        if let Some(fault) = find_flat(&rules) {
            return Err(fault);
        }
        Ok(Config { rules, origins, min_score, exclude, loaded_from })
    }
}

// --- what a layer changes ----------------------------------------------------

/// A patch sets what it mentions and leaves the rest of a rule as it was.
pub proof fn lemma_patch_sets(rule: RuleV, patch: PatchV, param: Text)
    requires
        table::ordered(patch.params),
    ensures
        ({
            let after = patched(rule, patch);
            &&& after.weight == (if patch.weight is Some {
                patch.weight.unwrap()
            } else {
                rule.weight
            })
            &&& after.free == (if patch.free is Some {
                patch.free.unwrap()
            } else {
                rule.free
            })
            &&& after.full == (if patch.full is Some {
                patch.full.unwrap()
            } else {
                rule.full
            })
            &&& after.enabled == (if patch.enabled is Some {
                patch.enabled.unwrap()
            } else {
                rule.enabled
            })
            &&& after.category == (if patch.category is Some {
                patch.category.unwrap()
            } else {
                rule.category
            })
            &&& table::lookup(after.params, param) == (if table::lookup(
                patch.params,
                param,
            ) is Some {
                table::lookup(patch.params, param)
            } else {
                table::lookup(rule.params, param)
            })
        }),
{
    lemma_params_set(rule.params, patch.params, patch.params.len(), param);
    assert(patch.params.take(patch.params.len() as int) =~= patch.params);
}

proof fn lemma_params_set(
    params: Seq<(Text, RealV)>,
    given: Seq<(Text, RealV)>,
    n: nat,
    name: Text,
)
    requires
        n <= given.len(),
        table::ordered(given),
    ensures
        table::lookup(params_set(params, given, n), name) == (if table::lookup(
            given.take(n as int),
            name,
        ) is Some {
            table::lookup(given.take(n as int), name)
        } else {
            table::lookup(params, name)
        }),
    decreases n,
{
    if n > 0 {
        lemma_params_set(params, given, (n - 1) as nat, name);
        table::lemma_take_one_more(given, n, name);
        table::lemma_put_lookup(
            params_set(params, given, (n - 1) as nat),
            given[n - 1].0,
            given[n - 1].1,
            name,
        );
    } else {
        assert(given.take(0) =~= seq![]);
    }
}

proof fn lemma_filed(
    start: Layered,
    path: Text,
    rules: Seq<(Text, PatchV)>,
    n: nat,
    id: Text,
)
    requires
        n <= rules.len(),
        table::ordered(rules),
        with_file(start, path, rules, n) is Ok,
    ensures
        ({
            let here = with_file(start, path, rules, n)->Ok_0;
            &&& table::lookup(rules.take(n as int), id) is None ==> table::lookup(here.rules, id)
                == table::lookup(start.rules, id) && table::lookup(here.origins, id)
                == table::lookup(start.origins, id)
            &&& table::lookup(rules.take(n as int), id) matches Some(patch) ==> table::lookup(
                start.rules,
                id,
            ) is Some && table::lookup(here.rules, id) == Some(
                patched(table::lookup(start.rules, id).unwrap(), patch),
            ) && table::lookup(here.origins, id) == Some(Origin::File)
        }),
    decreases n,
{
    if n > 0 {
        let m = (n - 1) as nat;
        lemma_filed(start, path, rules, m, id);
        table::lemma_take_one_more(rules, n, id);
        let here = with_file(start, path, rules, m)->Ok_0;
        let (name, patch) = rules[n - 1];
        lemma_filed(start, path, rules, m, name);
        let rule = table::lookup(here.rules, name).unwrap();
        table::lemma_put_lookup(here.rules, name, patched(rule, patch), id);
        table::lemma_put_lookup(here.origins, name, Origin::File, id);
    } else {
        assert(rules.take(0) =~= seq![]);
    }
}

/// A file changes the rules that it names, each by its own patch, and no other;
/// and it is known of each whether it did.
pub proof fn lemma_file_changes(start: Layered, path: Text, rules: Seq<(Text, PatchV)>, id: Text)
    requires
        table::ordered(rules),
        with_file(start, path, rules, rules.len()) is Ok,
    ensures
        ({
            let here = with_file(start, path, rules, rules.len())->Ok_0;
            match table::lookup(rules, id) {
                Some(patch) => table::lookup(start.rules, id) is Some && table::lookup(
                    here.rules,
                    id,
                ) == Some(patched(table::lookup(start.rules, id).unwrap(), patch))
                    && table::lookup(here.origins, id) == Some(Origin::File),
                None => table::lookup(here.rules, id) == table::lookup(start.rules, id)
                    && table::lookup(here.origins, id) == table::lookup(start.origins, id),
            }
        }),
{
    lemma_filed(start, path, rules, rules.len(), id);
    assert(rules.take(rules.len() as int) =~= rules);
}

/// A file that names a rule that there is not is refused.
pub proof fn lemma_unknown_refused(
    start: Layered,
    path: Text,
    rules: Seq<(Text, PatchV)>,
    i: int,
)
    requires
        table::ordered(rules),
        0 <= i < rules.len(),
        table::lookup(start.rules, rules[i].0) is None,
    ensures
        with_file(start, path, rules, rules.len()) is Err,
{
    if with_file(start, path, rules, rules.len()) is Ok {
        table::lemma_lookup_found(rules, i);
        lemma_file_changes(start, path, rules, rules[i].0);
    }
}

/// The environment sets what its variables name, by the number each holds, and
/// leaves the rest of a rule as it was; a variable that holds none is an error.
pub proof fn lemma_env_sets(env: Seq<(Text, EnvV)>, id: Text, rule: RuleV)
    ensures
        ({
            let weight = table::lookup(env, variable(id, "WEIGHT"@));
            let free = table::lookup(env, variable(id, "FREE"@));
            let full = table::lookup(env, variable(id, "FULL"@));
            let enabled = table::lookup(env, variable(id, "ENABLED"@));
            let wrong = |v: Option<EnvV>| v is Some && v.unwrap().number is None;
            let set = |v: Option<EnvV>, held: RealV|
                if v is Some {
                    v.unwrap().number.unwrap()
                } else {
                    held
                };
            &&& env_rule(env, id, rule) is Err <==> wrong(weight) || wrong(free) || wrong(full)
            &&& env_rule(env, id, rule) matches Ok(after) ==> {
                &&& after.weight == set(weight, rule.weight)
                &&& after.free == set(free, rule.free)
                &&& after.full == set(full, rule.full)
                &&& after.category == rule.category && after.params == rule.params
                &&& enabled is None ==> after.enabled == rule.enabled
                &&& enabled matches Some(v) ==> (after.enabled <==> text::lower_of(v.text) == "1"@
                    || text::lower_of(v.text) == "true"@ || text::lower_of(v.text) == "yes"@)
            }
        }),
{
}

proof fn lemma_enved(start: Layered, env: Seq<(Text, EnvV)>, n: nat, id: Text)
    requires
        n <= start.rules.len(),
        table::ordered(start.rules),
        with_env(start, env, n) is Ok,
    ensures
        ({
            let here = with_env(start, env, n)->Ok_0;
            &&& table::lookup(start.rules.take(n as int), id) matches Some(rule) ==> (env_rule(
                env,
                id,
                rule,
            ) matches Ok(after) && table::lookup(here.rules, id) == Some(after))
            &&& table::lookup(start.rules.take(n as int), id) is None ==> table::lookup(
                here.rules,
                id,
            ) == table::lookup(start.rules, id)
        }),
    decreases n,
{
    if n > 0 {
        let m = (n - 1) as nat;
        lemma_enved(start, env, m, id);
        table::lemma_take_one_more(start.rules, n, id);
        let here = with_env(start, env, m)->Ok_0;
        let (name, rule) = start.rules[n - 1];
        table::lemma_put_lookup(here.rules, name, env_rule(env, name, rule)->Ok_0, id);
    } else {
        assert(start.rules.take(0) =~= seq![]);
    }
}

/// The environment goes over what the file left, rule by rule.
pub proof fn lemma_env_changes(start: Layered, env: Seq<(Text, EnvV)>, id: Text)
    requires
        table::ordered(start.rules),
        with_env(start, env, start.rules.len()) is Ok,
    ensures
        ({
            let here = with_env(start, env, start.rules.len())->Ok_0;
            match table::lookup(start.rules, id) {
                Some(rule) => env_rule(env, id, rule) matches Ok(after) && table::lookup(
                    here.rules,
                    id,
                ) == Some(after),
                None => table::lookup(here.rules, id) is None,
            }
        }),
{
    lemma_enved(start, env, start.rules.len(), id);
    assert(start.rules.take(start.rules.len() as int) =~= start.rules);
}

/// What is in force has no ramp that does not rise, and has the floor and the
/// exclusions of the file, but for a floor that the environment asks for.
pub proof fn lemma_in_force(file: Option<(Text, FileV)>, env: Seq<(Text, EnvV)>)
    requires
        resolved(file, env) is Ok,
    ensures
        ({
            let config = resolved(file, env)->Ok_0;
            let asked = table::lookup(env, "CQX_MIN_SCORE"@);
            &&& forall|i: int|
                0 <= i < config.rules.len() ==> !measure::below(
                    (#[trigger] config.rules[i]).1.full.bits,
                    config.rules[i].1.free.bits,
                ) && !measure::level_with(
                    config.rules[i].1.full.bits,
                    config.rules[i].1.free.bits,
                )
            &&& file matches Some((path, f)) ==> config.exclude == f.exclude && config.loaded_from
                == Some(path) && f.version <= 1 && (asked is None ==> config.min_score
                == f.min_score)
            &&& file is None ==> config.exclude.len() == 0 && config.loaded_from is None && (asked
                is None ==> config.min_score is None)
            &&& asked matches Some(v) ==> config.min_score == text::small_number(v.text)
        }),
{
    let here = layered(file, env)->Ok_0;
    lemma_no_fault(here.rules, 0);
}

proof fn lemma_no_fault(rules: Seq<(Text, RuleV)>, i: nat)
    requires
        ramp_fault(rules, i) is None,
    ensures
        forall|k: int|
            i <= k < rules.len() ==> !measure::below(
                (#[trigger] rules[k]).1.full.bits,
                rules[k].1.free.bits,
            ) && !measure::level_with(rules[k].1.full.bits, rules[k].1.free.bits),
    decreases rules.len() - i,
{
    if i < rules.len() {
        lemma_no_fault(rules, i + 1);
    }
}


/// A patch takes each number from under its own name, and what is not said is not
/// patched.
pub proof fn lemma_patch_read(fields: Seq<(Text, JsonV)>)
    ensures
        patch_of(fields) matches Some(patch) ==> {
            &&& table::lookup(fields, "weight"@) is None ==> patch.weight is None
            &&& table::lookup(fields, "free"@) is None ==> patch.free is None
            &&& table::lookup(fields, "full"@) is None ==> patch.full is None
            &&& table::lookup(fields, "enabled"@) is None ==> patch.enabled is None
            &&& table::lookup(fields, "category"@) is None ==> patch.category is None
            &&& forall|r: RealV| #[trigger]
                table::lookup(fields, "weight"@) == Some(JsonV::Part(r)) ==> patch.weight == Some(r)
            &&& forall|r: RealV| #[trigger]
                table::lookup(fields, "free"@) == Some(JsonV::Part(r)) ==> patch.free == Some(r)
            &&& forall|r: RealV| #[trigger]
                table::lookup(fields, "full"@) == Some(JsonV::Part(r)) ==> patch.full == Some(r)
        },
{
}

}
