//! The CodeQuality Score.
//!
//! Every category starts at 100 and is degraded only by a named rule with a
//! published weight and a cap. What a rule takes is a ramp, and that arithmetic
//! is the caller's: it prices what [`plan`] lists, and everything else about a
//! score is decided here.

use vstd::prelude::*;

use crate::config::{Config, ConfigV, Origin, Rule, RuleV};
use crate::json::{self, Json, JsonV};
use crate::measure::{self, Real, RealV};
use crate::metrics::{Amount, Finding, FindingV, Metrics, MetricsV};
use crate::table::{self, Table};
use crate::text::{self, Text};

verus! {

/// A rule that is in force and was measured.
pub struct Applied {
    pub rule: String,
    pub category: String,
    pub weight: Real,
    pub free: Real,
    pub full: Real,
    pub amount: Amount,
}

pub struct AppliedV {
    pub rule: Text,
    pub category: Text,
    pub weight: RealV,
    pub free: RealV,
    pub full: RealV,
    pub amount: Amount,
}

impl DeepView for Applied {
    type V = AppliedV;

    open spec fn deep_view(&self) -> AppliedV {
        AppliedV {
            rule: self.rule@,
            category: self.category@,
            weight: self.weight.deep_view(),
            free: self.free.deep_view(),
            full: self.full.deep_view(),
            amount: self.amount,
        }
    }
}

/// What a measured rule comes to, and how its numbers are shown.
pub struct Price {
    pub value: Real,
    /// The value to three places.
    pub rounded: Real,
    /// The value as a report shows it, to two places.
    pub value_shown: String,
    pub taken: Real,
    /// What is taken as a report shows it, to one place.
    pub taken_shown: String,
}

pub struct PriceV {
    pub value: RealV,
    pub rounded: RealV,
    pub value_shown: Text,
    pub taken: RealV,
    pub taken_shown: Text,
}

impl DeepView for Price {
    type V = PriceV;

    open spec fn deep_view(&self) -> PriceV {
        PriceV {
            value: self.value.deep_view(),
            rounded: self.rounded.deep_view(),
            value_shown: self.value_shown@,
            taken: self.taken.deep_view(),
            taken_shown: self.taken_shown@,
        }
    }
}

impl Price {
    pub fn copy(&self) -> (p: Price)
        ensures
            p.deep_view() == self.deep_view(),
    {
        Price {
            value: self.value.copy(),
            rounded: self.rounded.copy(),
            value_shown: self.value_shown.clone(),
            taken: self.taken.copy(),
            taken_shown: self.taken_shown.clone(),
        }
    }
}

pub struct Deduction {
    pub rule: String,
    pub category: String,
    pub weight: Real,
    pub price: Price,
    pub capped: bool,
}

pub struct DeductionV {
    pub rule: Text,
    pub category: Text,
    pub weight: RealV,
    pub price: PriceV,
    pub capped: bool,
}

impl DeepView for Deduction {
    type V = DeductionV;

    open spec fn deep_view(&self) -> DeductionV {
        DeductionV {
            rule: self.rule@,
            category: self.category@,
            weight: self.weight.deep_view(),
            price: self.price.deep_view(),
            capped: self.capped,
        }
    }
}

// --- what is scored ----------------------------------------------------------

/// Whether a rule has anything to say of these metrics.
pub open spec fn applies(id: Text, rule: RuleV, m: MetricsV) -> bool {
    rule.enabled && table::lookup(m.values, id) is Some
}

/// The rules in force among the first `n`, in their order.
pub open spec fn applied(rules: Seq<(Text, RuleV)>, m: MetricsV, n: nat) -> Seq<AppliedV>
    decreases n,
{
    if n == 0 {
        seq![]
    } else {
        let before = applied(rules, m, (n - 1) as nat);
        let (id, rule) = rules[n - 1];
        match table::lookup(m.values, id) {
            Some(measure) if rule.enabled => before.push(
                AppliedV {
                    rule: id,
                    category: rule.category,
                    weight: rule.weight,
                    free: rule.free,
                    full: rule.full,
                    amount: measure.amount,
                },
            ),
            _ => before,
        }
    }
}

/// The rules that are in force and were measured.
pub fn plan(config: &Config, m: &Metrics) -> (out: Vec<Applied>)
    ensures
        out.deep_view() == applied(
            config.deep_view().rules,
            m.deep_view(),
            config.deep_view().rules.len(),
        ),
{
    let rules = &config.rules;
    let mut out: Vec<Applied> = Vec::new();
    assert(out.deep_view() =~= seq![]);
    let end: usize = rules.len();
    let mut i: usize = 0;
    while i < end
        invariant
            i <= end == rules.deep_view().len(),
            out.deep_view() == applied(rules.deep_view(), m.deep_view(), i as nat),
        decreases end - i,
    {
        let id = rules.name_at(i);
        let rule = rules.value_at(i);
        if rule.enabled {
            if let Some(measure) = m.get(id.as_str()) {
                text::push(
                    &mut out,
                    Applied {
                        rule: id.clone(),
                        category: rule.category.clone(),
                        weight: rule.weight.copy(),
                        free: rule.free.copy(),
                        full: rule.full.copy(),
                        amount: measure.amount,
                    },
                );
            }
        }
        i += 1;
    }
    out
}

/// What a rule took is all that it may.
pub open spec fn is_capped(taken: RealV, weight: RealV) -> bool {
    !measure::below(taken.bits, weight.bits) && !measure::is_nan(taken.bits) && measure::below(
        0,
        weight.bits,
    )
}

fn capped(taken: &Real, weight: &Real) -> (r: bool)
    ensures
        r == is_capped(taken.deep_view(), weight.deep_view()),
{
    (measure::is_below(weight.bits, taken.bits) || measure::is_level(weight.bits, taken.bits))
        && weight.is_positive()
}

pub open spec fn deducted(a: AppliedV, price: PriceV) -> DeductionV {
    DeductionV {
        rule: a.rule,
        category: a.category,
        weight: a.weight,
        price,
        capped: is_capped(price.taken, a.weight),
    }
}

pub open spec fn deductions_of(plan: Seq<AppliedV>, prices: Seq<PriceV>, n: nat) -> Seq<DeductionV>
    decreases n,
{
    if n == 0 {
        seq![]
    } else {
        deductions_of(plan, prices, (n - 1) as nat).push(deducted(plan[n - 1], prices[n - 1]))
    }
}

/// Every category among the first `n` rules, with nothing taken yet.
pub open spec fn categories(rules: Seq<(Text, RuleV)>, n: nat) -> Seq<(Text, Seq<RealV>)>
    decreases n,
{
    if n == 0 {
        seq![]
    } else {
        table::put(categories(rules, (n - 1) as nat), rules[n - 1].1.category, seq![])
    }
}

/// What the first `n` deductions take from each category.
pub open spec fn losses_of(
    start: Seq<(Text, Seq<RealV>)>,
    deductions: Seq<DeductionV>,
    n: nat,
) -> Seq<(Text, Seq<RealV>)>
    decreases n,
{
    if n == 0 {
        start
    } else {
        table::with_item(
            losses_of(start, deductions, (n - 1) as nat),
            deductions[n - 1].category,
            deductions[n - 1].price.taken,
        )
    }
}

fn find_categories(rules: &Table<Rule>) -> (out: Table<Vec<Real>>)
    ensures
        out.deep_view() == categories(rules.deep_view(), rules.deep_view().len()),
{
    let mut out: Table<Vec<Real>> = Table::new();
    let end: usize = rules.len();
    let mut i: usize = 0;
    while i < end
        invariant
            i <= end == rules.deep_view().len(),
            out.deep_view() == categories(rules.deep_view(), i as nat),
        decreases end - i,
    {
        let none: Vec<Real> = Vec::new();
        assert(none.deep_view() =~= seq![]);
        let _ = out.insert(rules.value_at(i).category.clone(), none);
        i += 1;
    }
    out
}

/// What a configuration takes, given what each rule of its [`plan`] comes to:
/// from every category what its rules take, in their order, and each deduction
/// by itself.
pub fn score(config: &Config, m: &Metrics, prices: &Vec<Price>) -> (out: (
    Table<Vec<Real>>,
    Vec<Deduction>,
))
    requires
        prices@.len() == applied(
            config.deep_view().rules,
            m.deep_view(),
            config.deep_view().rules.len(),
        ).len(),
    ensures
        ({
            let rules = config.deep_view().rules;
            let plan = applied(rules, m.deep_view(), rules.len());
            let all = deductions_of(plan, prices.deep_view(), plan.len());
            &&& out.1.deep_view() == all
            &&& out.0.deep_view() == losses_of(categories(rules, rules.len()), all, all.len())
        }),
{
    let plan = plan(config, m);
    let mut out: Vec<Deduction> = Vec::new();
    assert(out.deep_view() =~= seq![]);
    let mut losses = find_categories(&config.rules);
    let ghost start = losses.deep_view();
    let mut i: usize = 0;
    while i < plan.len()
        invariant
            i <= plan.len() == prices.len(),
            out@.len() == i,
            out.deep_view() == deductions_of(plan.deep_view(), prices.deep_view(), i as nat),
            losses.deep_view() == losses_of(start, out.deep_view(), i as nat),
        decreases plan.len() - i,
    {
        let a = &plan[i];
        let price = prices[i].copy();
        assert(plan.deep_view()[i as int] == a.deep_view());
        assert(prices.deep_view()[i as int] == price.deep_view());
        let ghost before = out.deep_view();
        table::add_item(&mut losses, a.category.as_str(), price.taken.copy());
        let capped = capped(&price.taken, &a.weight);
        text::push(
            &mut out,
            Deduction {
                rule: a.rule.clone(),
                category: a.category.clone(),
                weight: a.weight.copy(),
                price,
                capped,
            },
        );
        proof {
            lemma_losses_kept(start, before, out.deep_view(), i as nat);
        }
        i += 1;
    }
    (losses, out)
}

/// What the first deductions take does not depend on the later ones.
proof fn lemma_losses_kept(
    start: Seq<(Text, Seq<RealV>)>,
    a: Seq<DeductionV>,
    b: Seq<DeductionV>,
    n: nat,
)
    requires
        n <= a.len() <= b.len(),
        forall|i: int| 0 <= i < n ==> a[i] == b[i],
    ensures
        losses_of(start, a, n) == losses_of(start, b, n),
    decreases n,
{
    if n > 0 {
        lemma_losses_kept(start, a, b, (n - 1) as nat);
    }
}

/// What the first `n` deductions take from one category.
pub open spec fn taken_from(deductions: Seq<DeductionV>, category: Text, n: nat) -> Seq<RealV>
    decreases n,
{
    if n == 0 {
        seq![]
    } else {
        let before = taken_from(deductions, category, (n - 1) as nat);
        if deductions[n - 1].category == category {
            before.push(deductions[n - 1].price.taken)
        } else {
            before
        }
    }
}

proof fn lemma_categories_whole(rules: Seq<(Text, RuleV)>, category: Text, n: nat)
    ensures
        table::items_at(categories(rules, n), category) == Seq::<RealV>::empty(),
    decreases n,
{
    if n > 0 {
        let before = categories(rules, (n - 1) as nat);
        lemma_categories_whole(rules, category, (n - 1) as nat);
        table::lemma_put_lookup(before, rules[n - 1].1.category, seq![], category);
    }
}

proof fn lemma_losses_from(
    start: Seq<(Text, Seq<RealV>)>,
    deductions: Seq<DeductionV>,
    category: Text,
    n: nat,
)
    requires
        table::items_at(start, category) == Seq::<RealV>::empty(),
    ensures
        table::items_at(losses_of(start, deductions, n), category) == taken_from(
            deductions,
            category,
            n,
        ),
    decreases n,
{
    if n > 0 {
        let before = losses_of(start, deductions, (n - 1) as nat);
        let d = deductions[n - 1];
        lemma_losses_from(start, deductions, category, (n - 1) as nat);
        table::lemma_put_lookup(
            before,
            d.category,
            table::items_at(before, d.category).push(d.price.taken),
            category,
        );
    }
}

/// A category loses what its own deductions take and nothing else: one that no
/// deduction names is whole.
pub proof fn lemma_category_loses(
    rules: Seq<(Text, RuleV)>,
    deductions: Seq<DeductionV>,
    category: Text,
)
    ensures
        table::items_at(
            losses_of(categories(rules, rules.len()), deductions, deductions.len()),
            category,
        ) == taken_from(deductions, category, deductions.len()),
{
    lemma_categories_whole(rules, category, rules.len());
    lemma_losses_from(categories(rules, rules.len()), deductions, category, deductions.len());
}

proof fn lemma_applied_from(rules: Seq<(Text, RuleV)>, m: MetricsV, n: nat, i: int) -> (at: int)
    requires
        n <= rules.len(),
        0 <= i < applied(rules, m, n).len(),
    ensures
        0 <= at < n,
        applies(rules[at].0, rules[at].1, m),
        applied(rules, m, n)[i].rule == rules[at].0,
        applied(rules, m, n)[i].category == rules[at].1.category,
        applied(rules, m, n)[i].weight == rules[at].1.weight,
    decreases n,
{
    let before = applied(rules, m, (n - 1) as nat);
    if i < before.len() {
        lemma_applied_from(rules, m, (n - 1) as nat, i)
    } else {
        n - 1
    }
}

proof fn lemma_deductions_of(plan: Seq<AppliedV>, prices: Seq<PriceV>, n: nat)
    ensures
        deductions_of(plan, prices, n).len() == n,
        forall|i: int|
            0 <= i < n ==> #[trigger] deductions_of(plan, prices, n)[i] == deducted(
                plan[i],
                prices[i],
            ),
    decreases n,
{
    if n > 0 {
        lemma_deductions_of(plan, prices, (n - 1) as nat);
    }
}

/// Each entry of a plan is a rule of the configuration that is switched on, with
/// that rule's own category, weight, free and full value, and with the amount
/// that was measured under its name.
pub proof fn lemma_plan_prices(rules: Seq<(Text, RuleV)>, m: MetricsV, i: int)
    requires
        0 <= i < applied(rules, m, rules.len()).len(),
    ensures
        ({
            let entry = applied(rules, m, rules.len())[i];
            exists|at: int|
                0 <= at < rules.len() && (#[trigger] rules[at]).0 == entry.rule && rules[at].1.enabled
                    && rules[at].1.category == entry.category && rules[at].1.weight == entry.weight
                    && rules[at].1.free == entry.free && rules[at].1.full == entry.full && (
                table::lookup(m.values, entry.rule) matches Some(measure) && measure.amount
                    == entry.amount)
        }),
{
    let at = lemma_entry_from(rules, m, rules.len(), i);
    assert(rules[at].0 == applied(rules, m, rules.len())[i].rule);
}

proof fn lemma_entry_from(rules: Seq<(Text, RuleV)>, m: MetricsV, n: nat, i: int) -> (at: int)
    requires
        n <= rules.len(),
        0 <= i < applied(rules, m, n).len(),
    ensures
        0 <= at < n,
        ({
            let entry = applied(rules, m, n)[i];
            let (id, rule) = rules[at];
            &&& entry.rule == id && rule.enabled
            &&& entry.category == rule.category && entry.weight == rule.weight
            &&& entry.free == rule.free && entry.full == rule.full
            &&& table::lookup(m.values, id) matches Some(measure) && measure.amount == entry.amount
        }),
    decreases n,
{
    let before = applied(rules, m, (n - 1) as nat);
    if i < before.len() {
        lemma_entry_from(rules, m, (n - 1) as nat, i)
    } else {
        n - 1
    }
}

proof fn lemma_entry_to(rules: Seq<(Text, RuleV)>, m: MetricsV, n: nat, at: int) -> (i: int)
    requires
        n <= rules.len(),
        0 <= at < n,
        rules[at].1.enabled,
        table::lookup(m.values, rules[at].0) is Some,
    ensures
        0 <= i < applied(rules, m, n).len(),
        applied(rules, m, n)[i].rule == rules[at].0,
    decreases n,
{
    let before = applied(rules, m, (n - 1) as nat);
    if at == n - 1 {
        before.len() as int
    } else {
        lemma_entry_to(rules, m, (n - 1) as nat, at)
    }
}

proof fn lemma_entries_in_order(rules: Seq<(Text, RuleV)>, m: MetricsV, n: nat, i: int, j: int)
    requires
        n <= rules.len(),
        table::ordered(rules),
        0 <= i < j < applied(rules, m, n).len(),
    ensures
        text::less(applied(rules, m, n)[i].rule, applied(rules, m, n)[j].rule),
    decreases n,
{
    let before = applied(rules, m, (n - 1) as nat);
    if j < before.len() {
        lemma_entries_in_order(rules, m, (n - 1) as nat, i, j);
    } else {
        let at = lemma_entry_from(rules, m, (n - 1) as nat, i);
        assert(text::less(rules[at].0, rules[n - 1].0));
    }
}

/// A plan leaves out no rule that is switched on and was measured, names none
/// twice, and keeps the rules in their order.
pub proof fn lemma_plan_whole(rules: Seq<(Text, RuleV)>, m: MetricsV)
    requires
        table::ordered(rules),
    ensures
        forall|at: int|
            0 <= at < rules.len() && (#[trigger] rules[at]).1.enabled && table::lookup(
                m.values,
                rules[at].0,
            ) is Some ==> exists|i: int|
                0 <= i < applied(rules, m, rules.len()).len() && (#[trigger] applied(
                    rules,
                    m,
                    rules.len(),
                )[i]).rule == rules[at].0,
        forall|i: int, j: int|
            0 <= i < j < applied(rules, m, rules.len()).len() ==> text::less(
                (#[trigger] applied(rules, m, rules.len())[i]).rule,
                (#[trigger] applied(rules, m, rules.len())[j]).rule,
            ),
{
    let plan = applied(rules, m, rules.len());
    assert forall|at: int|
        0 <= at < rules.len() && (#[trigger] rules[at]).1.enabled && table::lookup(
            m.values,
            rules[at].0,
        ) is Some implies exists|i: int|
        0 <= i < plan.len() && (#[trigger] plan[i]).rule == rules[at].0 by {
        let i = lemma_entry_to(rules, m, rules.len(), at);
        assert(plan[i].rule == rules[at].0);
    }
    assert forall|i: int, j: int| 0 <= i < j < plan.len() implies text::less(
        (#[trigger] plan[i]).rule,
        (#[trigger] plan[j]).rule,
    ) by {
        lemma_entries_in_order(rules, m, rules.len(), i, j);
    }
}

/// A deduction is the plan's entry of the same place at the price it was given,
/// and it is capped where the price is at least the weight and there is a weight.
pub proof fn lemma_deduction_prices(plan: Seq<AppliedV>, prices: Seq<PriceV>, i: int)
    requires
        0 <= i < plan.len() == prices.len(),
    ensures
        deductions_of(plan, prices, plan.len()).len() == plan.len(),
        ({
            let d = deductions_of(plan, prices, plan.len())[i];
            &&& d.rule == plan[i].rule && d.category == plan[i].category
            &&& d.weight == plan[i].weight && d.price == prices[i]
            &&& d.capped ==> !measure::below(d.price.taken.bits, d.weight.bits)
            &&& measure::below(0, d.weight.bits) && measure::below(
                d.weight.bits,
                d.price.taken.bits,
            ) ==> d.capped
        }),
{
    lemma_deductions_of(plan, prices, plan.len());
}

/// Whatever is deducted, a rule that the configuration names deducts it: one
/// that is enabled and was measured, from its own category and under its own
/// weight.
pub proof fn lemma_rule_named(
    rules: Seq<(Text, RuleV)>,
    m: MetricsV,
    prices: Seq<PriceV>,
    i: int,
)
    requires
        0 <= i < applied(rules, m, rules.len()).len(),
    ensures
        ({
            let plan = applied(rules, m, rules.len());
            let d = deductions_of(plan, prices, plan.len())[i];
            exists|at: int|
                0 <= at < rules.len() && (#[trigger] rules[at]).0 == d.rule && applies(
                    rules[at].0,
                    rules[at].1,
                    m,
                ) && rules[at].1.category == d.category && rules[at].1.weight == d.weight
        }),
{
    let plan = applied(rules, m, rules.len());
    lemma_deductions_of(plan, prices, plan.len());
    let at = lemma_applied_from(rules, m, rules.len(), i);
    assert(rules[at].0 == deductions_of(plan, prices, plan.len())[i].rule);
}

/// The category with the lowest score among the first `n`, the first of those
/// that share it.
pub open spec fn lowest(scores: Seq<(Text, u32)>, n: nat) -> Option<(Text, u32)>
    decreases n,
{
    if n == 0 {
        None
    } else {
        match lowest(scores, (n - 1) as nat) {
            Some(held) if held.1 <= scores[n - 1].1 => Some(held),
            _ => Some(scores[n - 1]),
        }
    }
}

/// What is said of a score below the floor, where there is one.
pub open spec fn floor_fault(scores: Seq<(Text, u32)>, floor: Option<u32>) -> Option<Text> {
    match (floor, lowest(scores, scores.len())) {
        (Some(min), Some((category, worst))) => if worst < min {
            Some(
                "cqx: "@ + category + " scored "@ + text::decimal_of(worst as nat)
                    + ", below the required "@ + text::decimal_of(min as nat),
            )
        } else {
            None
        },
        _ => None,
    }
}

pub fn below_floor(scores: &Table<u32>, floor: Option<u32>) -> (fault: Option<String>)
    ensures
        fault.deep_view() == floor_fault(scores.deep_view(), floor),
{
    let min: u32 = match floor {
        Some(min) => min,
        None => return None,
    };
    let end: usize = scores.len();
    if end == 0 {
        return None;
    }
    let mut at: usize = 0;
    let mut i: usize = 1;
    assert(lowest(scores.deep_view(), 0) is None);
    while i < end
        invariant
            at < i <= end == scores.deep_view().len(),
            lowest(scores.deep_view(), i as nat) == Some(scores.deep_view()[at as int]),
        decreases end - i,
    {
        if *scores.value_at(i) < *scores.value_at(at) {
            at = i;
        }
        i += 1;
    }
    let worst: u32 = *scores.value_at(at);
    if worst < min {
        let mut s = text::cat3("cqx: ", scores.name_at(at).as_str(), " scored ");
        text::extend(&mut s, text::decimal(worst as u64).as_str());
        text::extend(&mut s, ", below the required ");
        text::extend(&mut s, text::decimal(min as u64).as_str());
        Some(s)
    } else {
        None
    }
}

/// What the program ends with.
pub fn exit_code(failed: bool) -> (code: i32)
    ensures
        code == if failed {
            1i32
        } else {
            0i32
        },
{
    if failed {
        1
    } else {
        0
    }
}

// --- what a person reads -----------------------------------------------------

pub open spec fn deduction_line(d: DeductionV) -> Text {
    let head = "      "@ + text::left_in(d.rule, 26) + " "@ + text::right_in(
        d.price.value_shown,
        8,
    );
    if measure::level_with(d.price.taken.bits, 0) {
        head + "      —"@
    } else if d.capped {
        head + "   −"@ + d.price.taken_shown + " (capped)"@
    } else {
        head + "   −"@ + d.price.taken_shown
    }
}

fn show_deduction(d: &Deduction) -> (s: String)
    ensures
        s@ == deduction_line(d.deep_view()),
{
    let mut s = text::cat4(
        "      ",
        text::left(d.rule.as_str(), 26).as_str(),
        " ",
        text::right(d.price.value_shown.as_str(), 8).as_str(),
    );
    if measure::is_level(d.price.taken.bits, 0) {
        text::extend(&mut s, "      —");
    } else {
        text::extend(&mut s, "   −");
        text::extend(&mut s, d.price.taken_shown.as_str());
        if d.capped {
            text::extend(&mut s, " (capped)");
        }
    }
    s
}

/// The lines of the deductions in a category, among the first `n`.
pub open spec fn deduction_lines(
    out: Seq<Text>,
    deductions: Seq<DeductionV>,
    category: Text,
    n: nat,
) -> Seq<Text>
    decreases n,
{
    if n == 0 {
        out
    } else {
        let before = deduction_lines(out, deductions, category, (n - 1) as nat);
        if deductions[n - 1].category == category {
            before.push(deduction_line(deductions[n - 1]))
        } else {
            before
        }
    }
}

pub open spec fn score_line(category: Text, value: nat) -> Text {
    "  "@ + text::left_in(category, 14) + " "@ + text::right_in(text::decimal_of(value), 3)
}

pub(crate) fn show_score(category: &str, value: u64) -> (s: String)
    ensures
        s@ == score_line(category@, value as nat),
{
    text::cat4(
        "  ",
        text::left(category, 14).as_str(),
        " ",
        text::right(text::decimal(value).as_str(), 3).as_str(),
    )
}

pub open spec fn category_lines(
    out: Seq<Text>,
    scores: Seq<(Text, u32)>,
    deductions: Seq<DeductionV>,
    n: nat,
) -> Seq<Text>
    decreases n,
{
    if n == 0 {
        out
    } else {
        let (category, value) = scores[n - 1];
        deduction_lines(
            category_lines(out, scores, deductions, (n - 1) as nat).push(seq![]).push(
                score_line(category, value as nat),
            ),
            deductions,
            category,
            deductions.len(),
        )
    }
}

fn list_categories(out: &mut Vec<String>, scores: &Table<u32>, deductions: &Vec<Deduction>)
    ensures
        final(out).deep_view() == category_lines(
            old(out).deep_view(),
            scores.deep_view(),
            deductions.deep_view(),
            scores.deep_view().len(),
        ),
{
    let ghost start = out.deep_view();
    let end: usize = scores.len();
    let mut i: usize = 0;
    while i < end
        invariant
            i <= end == scores.deep_view().len(),
            out.deep_view() == category_lines(
                start,
                scores.deep_view(),
                deductions.deep_view(),
                i as nat,
            ),
        decreases end - i,
    {
        let category = scores.name_at(i).as_str();
        text::push(out, text::empty());
        text::push(out, show_score(category, *scores.value_at(i) as u64));
        let ghost head = out.deep_view();
        let mut j: usize = 0;
        while j < deductions.len()
            invariant
                j <= deductions.len(),
                out.deep_view() == deduction_lines(
                    head,
                    deductions.deep_view(),
                    category@,
                    j as nat,
                ),
            decreases deductions.len() - j,
        {
            assert(deductions.deep_view()[j as int] == deductions@[j as int].deep_view());
            if text::same(deductions[j].category.as_str(), category) {
                text::push(out, show_deduction(&deductions[j]));
            }
            j += 1;
        }
        i += 1;
    }
}

/// The deduction that takes the most among the first `n`, the last of those
/// that share it.
pub open spec fn worst_of(deductions: Seq<DeductionV>, n: nat) -> Option<DeductionV>
    decreases n,
{
    if n == 0 {
        None
    } else {
        let d = deductions[n - 1];
        match worst_of(deductions, (n - 1) as nat) {
            Some(held) if measure::order_of(d.price.taken.bits) < measure::order_of(
                held.price.taken.bits,
            ) => Some(held),
            _ => Some(d),
        }
    }
}

fn find_worst(deductions: &Vec<Deduction>) -> (worst: Option<&Deduction>)
    ensures
        worst.deep_view() == worst_of(deductions.deep_view(), deductions@.len()),
{
    if deductions.len() == 0 {
        return None;
    }
    let mut at: usize = 0;
    let mut i: usize = 1;
    assert(worst_of(deductions.deep_view(), 0) is None);
    assert(deductions.deep_view()[0] == deductions@[0].deep_view());
    while i < deductions.len()
        invariant
            at < i <= deductions.len(),
            worst_of(deductions.deep_view(), i as nat) == Some(deductions@[at as int].deep_view()),
        decreases deductions.len() - i,
    {
        assert(deductions.deep_view()[i as int] == deductions@[i as int].deep_view());
        if !measure::is_before(deductions[i].price.taken.bits, deductions[at].price.taken.bits) {
            at = i;
        }
        i += 1;
    }
    Some(&deductions[at])
}

/// How many findings of the worst rule a report shows.
pub const FIRST: usize = 6;

pub open spec fn finding_line(f: FindingV) -> Text {
    "      "@ + f.file + ":"@ + text::decimal_of(f.line as nat) + "  "@ + f.what
}

pub open spec fn finding_lines(out: Seq<Text>, findings: Seq<FindingV>, n: nat) -> Seq<Text>
    decreases n,
{
    if n == 0 {
        out
    } else {
        finding_lines(out, findings, (n - 1) as nat).push(finding_line(findings[n - 1]))
    }
}

pub open spec fn shown_of(held: nat, limit: nat) -> nat {
    if held < limit {
        held
    } else {
        limit
    }
}

/// What is said of the findings behind the largest deduction.
pub open spec fn worst_lines(out: Seq<Text>, deductions: Seq<DeductionV>, m: MetricsV) -> Seq<Text> {
    match worst_of(deductions, deductions.len()) {
        Some(worst) => match table::lookup(m.values, worst.rule) {
            Some(measure) => if measure::below(0, worst.price.taken.bits) {
                let held = measure.findings;
                let lines = finding_lines(
                    out.push(seq![]).push("  worst: "@ + worst.rule + " — first findings"@),
                    held,
                    shown_of(held.len(), FIRST as nat),
                );
                if held.len() > FIRST {
                    lines.push(
                        "      … "@ + text::decimal_of((held.len() - FIRST) as nat) + " more"@,
                    )
                } else {
                    lines
                }
            } else {
                out
            },
            None => out,
        },
        None => out,
    }
}

fn list_worst(out: &mut Vec<String>, deductions: &Vec<Deduction>, m: &Metrics)
    ensures
        final(out).deep_view() == worst_lines(
            old(out).deep_view(),
            deductions.deep_view(),
            m.deep_view(),
        ),
{
    let worst = match find_worst(deductions) {
        Some(worst) => worst,
        None => return,
    };
    if !worst.price.taken.is_positive() {
        return;
    }
    let held: &Vec<Finding> = match m.get(worst.rule.as_str()) {
        Some(measure) => &measure.findings,
        None => return,
    };
    text::push(out, text::empty());
    text::push(out, text::cat3("  worst: ", worst.rule.as_str(), " — first findings"));
    let ghost head = out.deep_view();
    let mut i: usize = 0;
    while i < held.len() && i < FIRST
        invariant
            i <= held.len(),
            i <= FIRST,
            out.deep_view() == finding_lines(head, held.deep_view(), i as nat),
        decreases FIRST - i,
    {
        let f = &held[i];
        assert(held.deep_view()[i as int] == f.deep_view());
        let mut line = text::cat3("      ", f.file.as_str(), ":");
        text::extend(&mut line, text::decimal(f.line as u64).as_str());
        text::extend(&mut line, "  ");
        text::extend(&mut line, f.what.as_str());
        text::push(out, line);
        i += 1;
    }
    if held.len() > FIRST {
        let rest: u64 = (held.len() - FIRST) as u64;
        text::push(out, text::cat3("      … ", text::decimal(rest).as_str(), " more"));
    }
}

/// The lines of a report.
pub open spec fn report_lines(
    config: ConfigV,
    scores: Seq<(Text, u32)>,
    deductions: Seq<DeductionV>,
    m: MetricsV,
) -> Seq<Text> {
    let head: Seq<Text> = seq![
        "CodeQuality Score · "@ + text::decimal_of(m.lines as nat) + " product lines"@,
    ];
    let named = match config.loaded_from {
        Some(path) => head.push("configuration: "@ + path),
        None => head,
    };
    worst_lines(category_lines(named, scores, deductions, scores.len()), deductions, m)
}

pub fn report(config: &Config, scores: &Table<u32>, deductions: &Vec<Deduction>, m: &Metrics) -> (out:
    Vec<String>)
    ensures
        out.deep_view() == report_lines(
            config.deep_view(),
            scores.deep_view(),
            deductions.deep_view(),
            m.deep_view(),
        ),
{
    let mut out: Vec<String> = Vec::new();
    assert(out.deep_view() =~= seq![]);
    text::push(
        &mut out,
        text::cat3("CodeQuality Score · ", text::decimal(m.lines).as_str(), " product lines"),
    );
    assert(out.deep_view() =~= seq![
        "CodeQuality Score · "@ + text::decimal_of(m.lines as nat) + " product lines"@,
    ]);
    if let Some(path) = &config.loaded_from {
        text::push(&mut out, text::cat("configuration: ", path.as_str()));
    }
    list_categories(&mut out, scores, deductions);
    list_worst(&mut out, deductions, m);
    out
}

/// A rule's numbers as they are shown: the weight without a fraction, the
/// bounds of the ramp to two places.
pub struct Figures {
    pub weight: String,
    pub free: String,
    pub full: String,
}

pub struct FiguresV {
    pub weight: Text,
    pub free: Text,
    pub full: Text,
}

impl DeepView for Figures {
    type V = FiguresV;

    open spec fn deep_view(&self) -> FiguresV {
        FiguresV { weight: self.weight@, free: self.free@, full: self.full@ }
    }
}

pub open spec fn columns(
    name: Text,
    category: Text,
    weight: Text,
    free: Text,
    full: Text,
    origin: Text,
) -> Text {
    text::left_in(name, 26) + text::left_in(category, 13) + text::right_in(weight, 8)
        + text::right_in(free, 8) + text::right_in(full, 8) + "   "@ + origin
}

fn show_columns(
    name: &str,
    category: &str,
    weight: &str,
    free: &str,
    full: &str,
    origin: &str,
) -> (s: String)
    ensures
        s@ == columns(name@, category@, weight@, free@, full@, origin@),
{
    let mut s = text::cat5(
        text::left(name, 26).as_str(),
        text::left(category, 13).as_str(),
        text::right(weight, 8).as_str(),
        text::right(free, 8).as_str(),
        text::right(full, 8).as_str(),
    );
    text::extend(&mut s, "   ");
    text::extend(&mut s, origin);
    s
}

pub open spec fn origin_name(origin: Option<Origin>) -> Text {
    match origin {
        Some(Origin::File) => "config"@,
        Some(Origin::Env) => "env"@,
        _ => "default"@,
    }
}

pub open spec fn rule_line(id: Text, rule: RuleV, figures: FiguresV, origin: Option<Origin>) -> Text {
    let line = columns(
        id,
        rule.category,
        figures.weight,
        figures.free,
        figures.full,
        origin_name(origin),
    );
    if rule.enabled {
        line
    } else {
        line + "  (disabled)"@
    }
}

pub open spec fn rule_lines(config: ConfigV, figures: Seq<FiguresV>, n: nat) -> Seq<Text>
    decreases n,
{
    if n == 0 {
        let head: Seq<Text> = seq![
            match config.loaded_from {
                Some(path) => "configuration: "@ + path,
                None => "configuration: built-in defaults (no cqx.json found)"@,
            },
        ];
        head.push(seq![]).push(
            columns("rule"@, "category"@, "weight"@, "free"@, "full"@, "from"@),
        )
    } else {
        let (id, rule) = config.rules[n - 1];
        rule_lines(config, figures, (n - 1) as nat).push(
            rule_line(id, rule, figures[n - 1], table::lookup(config.origins, id)),
        )
    }
}

/// Every rule in force, its thresholds, and where each came from. The figures
/// are those of the rules, in their order.
pub fn explain(config: &Config, figures: &Vec<Figures>) -> (out: Vec<String>)
    requires
        figures@.len() == config.deep_view().rules.len(),
    ensures
        out.deep_view() == rule_lines(
            config.deep_view(),
            figures.deep_view(),
            config.deep_view().rules.len(),
        ).push(seq![]).push(
            "Override any of them with CQX_RULE_<RULE>_{WEIGHT,FREE,FULL,ENABLED},"@,
        ).push("for example CQX_RULE_EXIT_IN_LIBRARY_WEIGHT=10. A cqx.json may set the"@).push(
            "same fields, and need only mention the rules it changes."@,
        ),
{
    let mut out: Vec<String> = Vec::new();
    assert(out.deep_view() =~= seq![]);
    let first = match &config.loaded_from {
        Some(path) => text::cat("configuration: ", path.as_str()),
        None => "configuration: built-in defaults (no cqx.json found)".to_owned(),
    };
    text::push(&mut out, first);
    text::push(&mut out, text::empty());
    text::push(&mut out, show_columns("rule", "category", "weight", "free", "full", "from"));
    assert(out.deep_view() =~= rule_lines(config.deep_view(), figures.deep_view(), 0));
    let rules = &config.rules;
    let end: usize = rules.len();
    let mut i: usize = 0;
    while i < end
        invariant
            i <= end == rules.deep_view().len() == figures@.len(),
            *rules == config.rules,
            out.deep_view() == rule_lines(config.deep_view(), figures.deep_view(), i as nat),
        decreases end - i,
    {
        let id = rules.name_at(i);
        let rule = rules.value_at(i);
        assert(figures.deep_view()[i as int] == figures@[i as int].deep_view());
        let origin: &str = match config.origins.get(id.as_str()) {
            Some(origin) => origin.name(),
            None => "default",
        };
        let mut line = show_columns(
            id.as_str(),
            rule.category.as_str(),
            figures[i].weight.as_str(),
            figures[i].free.as_str(),
            figures[i].full.as_str(),
            origin,
        );
        if !rule.enabled {
            text::extend(&mut line, "  (disabled)");
        }
        text::push(&mut out, line);
        i += 1;
    }
    text::push(&mut out, text::empty());
    text::push(
        &mut out,
        "Override any of them with CQX_RULE_<RULE>_{WEIGHT,FREE,FULL,ENABLED},".to_owned(),
    );
    text::push(
        &mut out,
        "for example CQX_RULE_EXIT_IN_LIBRARY_WEIGHT=10. A cqx.json may set the".to_owned(),
    );
    text::push(&mut out, "same fields, and need only mention the rules it changes.".to_owned());
    out
}

// --- what a program reads ----------------------------------------------------

pub open spec fn finding_json(f: FindingV) -> JsonV {
    JsonV::Object(
        seq![("what"@, JsonV::Str(f.what))].push(("file"@, JsonV::Str(f.file))).push(
            ("line"@, JsonV::Whole(f.line as u64)),
        ),
    )
}

pub open spec fn findings_json(findings: Seq<FindingV>) -> JsonV {
    JsonV::List(Seq::new(findings.len(), |i: int| finding_json(findings[i])))
}

fn write_findings(findings: &Vec<Finding>) -> (j: Json)
    ensures
        j.deep_view() == findings_json(findings.deep_view()),
{
    let mut items: Vec<Json> = Vec::new();
    let mut i: usize = 0;
    while i < findings.len()
        invariant
            i <= findings.len(),
            items.deep_view() == Seq::new(
                i as nat,
                |k: int| finding_json(findings.deep_view()[k]),
            ),
        decreases findings.len() - i,
    {
        let f = &findings[i];
        assert(findings.deep_view()[i as int] == f.deep_view());
        let mut fields = json::no_fields();
        crate::json::add(&mut fields, "what", Json::str(f.what.as_str()));
        crate::json::add(&mut fields, "file", Json::str(f.file.as_str()));
        crate::json::add(&mut fields, "line", Json::Whole(f.line as u64));
        assert(fields.deep_view() =~= seq![("what"@, JsonV::Str(f.what@))].push(
            ("file"@, JsonV::Str(f.file@)),
        ).push(("line"@, JsonV::Whole(f.line as u64))));
        text::push(&mut items, Json::object(fields));
        assert(items.deep_view() =~= Seq::new(
            (i + 1) as nat,
            |k: int| finding_json(findings.deep_view()[k]),
        ));
        i += 1;
    }
    Json::list(items)
}

pub open spec fn findings_for(m: MetricsV, id: Text) -> Seq<FindingV> {
    match table::lookup(m.values, id) {
        Some(measure) => measure.findings,
        None => seq![],
    }
}

pub open spec fn deduction_fields(d: DeductionV) -> Seq<(Text, JsonV)> {
    seq![("rule"@, JsonV::Str(d.rule))].push(("category"@, JsonV::Str(d.category))).push(
        ("value"@, JsonV::Part(d.price.rounded)),
    ).push(("weight"@, JsonV::Part(d.weight))).push(
        ("deducted"@, JsonV::Part(d.price.taken)),
    ).push(("capped"@, JsonV::Bool(d.capped)))
}

pub open spec fn deduction_json(d: DeductionV, m: MetricsV) -> JsonV {
    let findings = findings_for(m, d.rule);
    JsonV::Object(
        deduction_fields(d).push(("findings"@, findings_json(findings))).push(
            ("total_findings"@, JsonV::Whole(findings.len() as u64)),
        ),
    )
}

pub open spec fn deductions_json(deductions: Seq<DeductionV>, m: MetricsV) -> JsonV {
    JsonV::List(Seq::new(deductions.len(), |i: int| deduction_json(deductions[i], m)))
}

fn write_deduction(d: &Deduction, m: &Metrics) -> (j: Json)
    ensures
        j.deep_view() == deduction_json(d.deep_view(), m.deep_view()),
{
    let mut fields = json::no_fields();
    crate::json::add(&mut fields, "rule", Json::str(d.rule.as_str()));
    crate::json::add(&mut fields, "category", Json::str(d.category.as_str()));
    crate::json::add(&mut fields, "value", Json::Part(d.price.rounded.copy()));
    crate::json::add(&mut fields, "weight", Json::Part(d.weight.copy()));
    crate::json::add(&mut fields, "deducted", Json::Part(d.price.taken.copy()));
    crate::json::add(&mut fields, "capped", Json::Bool(d.capped));
    assert(fields.deep_view() =~= deduction_fields(d.deep_view()));
    let none: Vec<Finding> = Vec::new();
    assert(none.deep_view() =~= seq![]);
    let findings = match m.get(d.rule.as_str()) {
        Some(measure) => &measure.findings,
        None => &none,
    };
    crate::json::add(&mut fields, "findings", write_findings(findings));
    crate::json::add(&mut fields, "total_findings", Json::Whole(findings.len() as u64));
    Json::object(fields)
}

pub open spec fn rule_json(rule: RuleV) -> JsonV {
    JsonV::Object(
        seq![("category"@, JsonV::Str(rule.category))].push(
            ("weight"@, JsonV::Part(rule.weight)),
        ).push(("free"@, JsonV::Part(rule.free))).push(("full"@, JsonV::Part(rule.full))).push(
            ("enabled"@, JsonV::Bool(rule.enabled)),
        ).push(
            (
                "params"@,
                JsonV::Object(
                    Seq::new(
                        rule.params.len(),
                        |i: int| (rule.params[i].0, JsonV::Part(rule.params[i].1)),
                    ),
                ),
            ),
        ),
    )
}

fn write_rule(rule: &Rule) -> (j: Json)
    ensures
        j.deep_view() == rule_json(rule.deep_view()),
{
    let ghost held = rule.params.deep_view();
    let mut params = json::no_fields();
    let end: usize = rule.params.len();
    let mut i: usize = 0;
    while i < end
        invariant
            i <= end == held.len(),
            held == rule.params.deep_view(),
            params.deep_view() == Seq::new(i as nat, |k: int| (held[k].0, JsonV::Part(held[k].1))),
        decreases end - i,
    {
        crate::json::add(
            &mut params,
            rule.params.name_at(i).as_str(),
            Json::Part(rule.params.value_at(i).copy()),
        );
        assert(params.deep_view() =~= Seq::new(
            (i + 1) as nat,
            |k: int| (held[k].0, JsonV::Part(held[k].1)),
        ));
        i += 1;
    }
    let mut fields = json::no_fields();
    crate::json::add(&mut fields, "category", Json::str(rule.category.as_str()));
    crate::json::add(&mut fields, "weight", Json::Part(rule.weight.copy()));
    crate::json::add(&mut fields, "free", Json::Part(rule.free.copy()));
    crate::json::add(&mut fields, "full", Json::Part(rule.full.copy()));
    crate::json::add(&mut fields, "enabled", Json::Bool(rule.enabled));
    crate::json::add(&mut fields, "params", Json::object(params));
    assert(fields.deep_view() =~= rule_json(rule.deep_view())->Object_0);
    Json::object(fields)
}

pub open spec fn config_json(config: ConfigV) -> JsonV {
    JsonV::Object(
        seq![
            (
                "rules"@,
                JsonV::Object(
                    Seq::new(
                        config.rules.len(),
                        |i: int| (config.rules[i].0, rule_json(config.rules[i].1)),
                    ),
                ),
            ),
        ].push(
            (
                "min_score"@,
                match config.min_score {
                    Some(n) => JsonV::Whole(n as u64),
                    None => JsonV::Null,
                },
            ),
        ),
    )
}

/// The rules in force, as a value.
pub fn write_config(config: &Config) -> (j: Json)
    ensures
        j.deep_view() == config_json(config.deep_view()),
{
    let ghost held = config.rules.deep_view();
    let mut rules = json::no_fields();
    let end: usize = config.rules.len();
    let mut i: usize = 0;
    while i < end
        invariant
            i <= end == held.len(),
            held == config.rules.deep_view(),
            rules.deep_view() == Seq::new(i as nat, |k: int| (held[k].0, rule_json(held[k].1))),
        decreases end - i,
    {
        crate::json::add(
            &mut rules,
            config.rules.name_at(i).as_str(),
            write_rule(config.rules.value_at(i)),
        );
        assert(rules.deep_view() =~= Seq::new(
            (i + 1) as nat,
            |k: int| (held[k].0, rule_json(held[k].1)),
        ));
        i += 1;
    }
    let mut fields = json::no_fields();
    crate::json::add(&mut fields, "rules", Json::object(rules));
    let floor = match config.min_score {
        Some(n) => Json::Whole(n as u64),
        None => Json::Null,
    };
    crate::json::add(&mut fields, "min_score", floor);
    assert(fields.deep_view() =~= config_json(config.deep_view())->Object_0);
    Json::object(fields)
}

pub open spec fn scores_json(scores: Seq<(Text, u32)>) -> JsonV {
    JsonV::Object(
        Seq::new(scores.len(), |i: int| (scores[i].0, JsonV::Whole(scores[i].1 as u64))),
    )
}

pub(crate) fn write_scores(scores: &Table<u32>) -> (j: Json)
    ensures
        j.deep_view() == scores_json(scores.deep_view()),
{
    let ghost held = scores.deep_view();
    let mut fields = json::no_fields();
    let end: usize = scores.len();
    let mut i: usize = 0;
    while i < end
        invariant
            i <= end == held.len(),
            held == scores.deep_view(),
            fields.deep_view() == Seq::new(
                i as nat,
                |k: int| (held[k].0, JsonV::Whole(held[k].1 as u64)),
            ),
        decreases end - i,
    {
        crate::json::add(
            &mut fields,
            scores.name_at(i).as_str(),
            Json::Whole(*scores.value_at(i) as u64),
        );
        assert(fields.deep_view() =~= Seq::new(
            (i + 1) as nat,
            |k: int| (held[k].0, JsonV::Whole(held[k].1 as u64)),
        ));
        i += 1;
    }
    Json::object(fields)
}

/// A score as a value: the lines it is of, the scores, every deduction with its
/// findings, and the rules it was made by.
pub open spec fn report_value(
    config: ConfigV,
    scores: Seq<(Text, u32)>,
    deductions: Seq<DeductionV>,
    m: MetricsV,
) -> JsonV {
    JsonV::Object(
        seq![("lines"@, JsonV::Whole(m.lines))].push(("scores"@, scores_json(scores))).push(
            ("rules"@, deductions_json(deductions, m)),
        ).push(("config"@, config_json(config))),
    )
}

pub fn report_json(
    config: &Config,
    scores: &Table<u32>,
    deductions: &Vec<Deduction>,
    m: &Metrics,
) -> (j: Json)
    ensures
        j.deep_view() == report_value(
            config.deep_view(),
            scores.deep_view(),
            deductions.deep_view(),
            m.deep_view(),
        ),
{
    let mut items: Vec<Json> = Vec::new();
    let mut i: usize = 0;
    while i < deductions.len()
        invariant
            i <= deductions.len(),
            items.deep_view() == Seq::new(
                i as nat,
                |k: int| deduction_json(deductions.deep_view()[k], m.deep_view()),
            ),
        decreases deductions.len() - i,
    {
        assert(deductions.deep_view()[i as int] == deductions@[i as int].deep_view());
        text::push(&mut items, write_deduction(&deductions[i], m));
        assert(items.deep_view() =~= Seq::new(
            (i + 1) as nat,
            |k: int| deduction_json(deductions.deep_view()[k], m.deep_view()),
        ));
        i += 1;
    }
    let mut fields = json::no_fields();
    crate::json::add(&mut fields, "lines", Json::Whole(m.lines));
    crate::json::add(&mut fields, "scores", write_scores(scores));
    crate::json::add(&mut fields, "rules", Json::list(items));
    crate::json::add(&mut fields, "config", write_config(config));
    assert(fields.deep_view() =~= seq![("lines"@, JsonV::Whole(m.lines))].push(
        ("scores"@, scores_json(scores.deep_view())),
    ).push(("rules"@, deductions_json(deductions.deep_view(), m.deep_view()))).push(
        ("config"@, config_json(config.deep_view())),
    ));
    Json::object(fields)
}

// --- what a report shows -----------------------------------------------------

/// A deduction is shown under its rule, with its category, its weight and its
/// price, and with every finding that was made under that rule.
#[verifier::rlimit(60)]
pub proof fn lemma_deduction_shown(d: DeductionV, m: MetricsV)
    ensures
        ({
            let shown = deduction_json(d, m);
            let findings = match table::lookup(m.values, d.rule) {
                Some(measure) => measure.findings,
                None => seq![],
            };
            &&& json::field_of(shown, "rule"@) == Some(JsonV::Str(d.rule))
            &&& json::field_of(shown, "category"@) == Some(JsonV::Str(d.category))
            &&& json::field_of(shown, "value"@) == Some(JsonV::Part(d.price.rounded))
            &&& json::field_of(shown, "weight"@) == Some(JsonV::Part(d.weight))
            &&& json::field_of(shown, "deducted"@) == Some(JsonV::Part(d.price.taken))
            &&& json::field_of(shown, "capped"@) == Some(JsonV::Bool(d.capped))
            &&& json::field_of(shown, "total_findings"@) == Some(
                JsonV::Whole(findings.len() as u64),
            )
            &&& json::field_of(shown, "findings"@) matches Some(JsonV::List(list)) && list.len()
                == findings.len() && forall|i: int|
                0 <= i < list.len() ==> #[trigger] list[i] == finding_json(findings[i])
        }),
{
    broadcast use crate::table::lemma_lookup_push;

    reveal_strlit("rule");
    reveal_strlit("category");
    reveal_strlit("value");
    reveal_strlit("weight");
    reveal_strlit("deducted");
    reveal_strlit("capped");
    reveal_strlit("findings");
    reveal_strlit("total_findings");
    assert("rule"@.len() == 4 && "value"@.len() == 5 && "total_findings"@.len() == 14);
    assert("category"@[0] == 'c' && "deducted"@[0] == 'd' && "findings"@[0] == 'f');
    assert("weight"@[0] == 'w' && "capped"@[0] == 'c' && "weight"@.len() == 6);
    assert("capped"@.len() == 6 && "category"@.len() == 8 && "deducted"@.len() == 8);
    assert("findings"@.len() == 8);
    let first = seq![("rule"@, JsonV::Str(d.rule))];
    assert(first.skip(1) =~= seq![]);
    assert(table::lookup(first, "rule"@) == Some(JsonV::Str(d.rule)));
    assert(forall|other: Text| other != "rule"@ ==> #[trigger] table::lookup(first, other) is None);
}

/// A finding is shown by what it says, its file and its line.
pub proof fn lemma_finding_shown(f: FindingV)
    ensures
        json::field_of(finding_json(f), "what"@) == Some(JsonV::Str(f.what)),
        json::field_of(finding_json(f), "file"@) == Some(JsonV::Str(f.file)),
        json::field_of(finding_json(f), "line"@) == Some(JsonV::Whole(f.line as u64)),
{
    broadcast use crate::table::lemma_lookup_push;

    reveal_strlit("what");
    reveal_strlit("file");
    reveal_strlit("line");
    assert("what"@[0] == 'w' && "file"@[0] == 'f' && "line"@[0] == 'l');
    let first = seq![("what"@, JsonV::Str(f.what))];
    assert(first.skip(1) =~= seq![]);
    assert(table::lookup(first, "what"@) == Some(JsonV::Str(f.what)));
    assert(forall|other: Text| other != "what"@ ==> #[trigger] table::lookup(first, other) is None);
}

/// A rule is shown with its own category, weight, free and full value, whether it
/// is on, and its parameters.
#[verifier::rlimit(60)]
pub proof fn lemma_rule_shown(rule: RuleV)
    ensures
        ({
            let shown = rule_json(rule);
            &&& json::field_of(shown, "category"@) == Some(JsonV::Str(rule.category))
            &&& json::field_of(shown, "weight"@) == Some(JsonV::Part(rule.weight))
            &&& json::field_of(shown, "free"@) == Some(JsonV::Part(rule.free))
            &&& json::field_of(shown, "full"@) == Some(JsonV::Part(rule.full))
            &&& json::field_of(shown, "enabled"@) == Some(JsonV::Bool(rule.enabled))
            &&& json::field_of(shown, "params"@) matches Some(JsonV::Object(params)) && params.len()
                == rule.params.len() && forall|i: int|
                0 <= i < params.len() ==> #[trigger] params[i] == (
                    rule.params[i].0,
                    JsonV::Part(rule.params[i].1),
                )
        }),
{
    broadcast use crate::table::lemma_lookup_push;

    reveal_strlit("category");
    reveal_strlit("weight");
    reveal_strlit("free");
    reveal_strlit("full");
    reveal_strlit("enabled");
    reveal_strlit("params");
    assert("free"@[1] == 'r' && "full"@[1] == 'u' && "free"@.len() == 4 && "full"@.len() == 4);
    assert("weight"@[0] == 'w' && "params"@[0] == 'p' && "weight"@.len() == 6);
    assert("params"@.len() == 6 && "enabled"@.len() == 7 && "category"@.len() == 8);
    let first = seq![("category"@, JsonV::Str(rule.category))];
    assert(first.skip(1) =~= seq![]);
    assert(table::lookup(first, "category"@) == Some(JsonV::Str(rule.category)));
    assert(forall|other: Text|
        other != "category"@ ==> #[trigger] table::lookup(first, other) is None);
}

/// A report holds the lines it is of, each category with its score, each deduction
/// in its place, and each rule of the configuration under its name.
#[verifier::rlimit(60)]
pub proof fn lemma_report_shown(
    config: ConfigV,
    scores: Seq<(Text, u32)>,
    deductions: Seq<DeductionV>,
    m: MetricsV,
)
    ensures
        ({
            let report = report_value(config, scores, deductions, m);
            &&& json::field_of(report, "lines"@) == Some(JsonV::Whole(m.lines))
            &&& json::field_of(report, "scores"@) matches Some(JsonV::Object(list)) && list.len()
                == scores.len() && forall|i: int|
                0 <= i < list.len() ==> #[trigger] list[i] == (
                    scores[i].0,
                    JsonV::Whole(scores[i].1 as u64),
                )
            &&& json::field_of(report, "rules"@) matches Some(JsonV::List(list)) && list.len()
                == deductions.len() && forall|i: int|
                0 <= i < list.len() ==> #[trigger] list[i] == deduction_json(deductions[i], m)
            &&& json::field_of(report, "config"@) matches Some(held) && (json::field_of(
                held,
                "rules"@,
            ) matches Some(JsonV::Object(list)) && list.len() == config.rules.len() && forall|i: int|
                0 <= i < list.len() ==> #[trigger] list[i] == (
                    config.rules[i].0,
                    rule_json(config.rules[i].1),
                )) && (config.min_score matches Some(n) ==> json::field_of(held, "min_score"@)
                == Some(JsonV::Whole(n as u64))) && (config.min_score is None ==> json::field_of(
                held,
                "min_score"@,
            ) == Some(JsonV::Null))
        }),
{
    broadcast use crate::table::lemma_lookup_push;

    reveal_strlit("lines");
    reveal_strlit("scores");
    reveal_strlit("rules");
    reveal_strlit("config");
    reveal_strlit("min_score");
    assert("lines"@[0] == 'l' && "rules"@[0] == 'r' && "lines"@.len() == 5 && "rules"@.len() == 5);
    assert("scores"@[0] == 's' && "config"@[0] == 'c' && "min_score"@.len() == 9);
    assert("scores"@.len() == 6 && "config"@.len() == 6);
    let first = seq![("lines"@, JsonV::Whole(m.lines))];
    assert(first.skip(1) =~= seq![]);
    assert(table::lookup(first, "lines"@) == Some(JsonV::Whole(m.lines)));
    assert(forall|other: Text|
        other != "lines"@ ==> #[trigger] table::lookup(first, other) is None);
    let held = config_json(config)->Object_0;
    let rules = held.take(1);
    assert(rules.skip(1) =~= seq![]);
    assert(held =~= rules.push(held[1]));
    assert(table::lookup(rules, "rules"@) == Some(held[0].1));
    assert(table::lookup(rules, "min_score"@) is None);
}

/// The lowest score is one of them, and none is lower; a tree is under its floor
/// exactly when that one is.
pub proof fn lemma_lowest(scores: Seq<(Text, u32)>, n: nat, min: u32)
    requires
        0 < n <= scores.len(),
    ensures
        lowest(scores, n) matches Some(row) && scores.take(n as int).contains(row) && forall|i: int|
            0 <= i < n ==> row.1 <= (#[trigger] scores[i]).1,
        n == scores.len() ==> (floor_fault(scores, Some(min)) is Some <==> exists|i: int|
            0 <= i < n && (#[trigger] scores[i]).1 < min),
        floor_fault(scores, None) is None,
    decreases n,
{
    let all = scores.take(n as int);
    assert(all[n - 1] == scores[n - 1]);
    if n > 1 {
        lemma_lowest(scores, (n - 1) as nat, min);
        let row = lowest(scores, (n - 1) as nat).unwrap();
        let front = scores.take(n - 1);
        let i = choose|i: int| 0 <= i < front.len() && front[i] == row;
        assert(all[i] == row);
    } else {
        assert(lowest(scores, 0) is None);
    }
    let row = lowest(scores, n).unwrap();
    let i = choose|i: int| 0 <= i < all.len() && all[i] == row;
    assert(scores[i] == row);
}

/// The worst deduction is one of them, and none takes more.
pub proof fn lemma_worst(deductions: Seq<DeductionV>, n: nat)
    requires
        0 < n <= deductions.len(),
    ensures
        worst_of(deductions, n) matches Some(d) && deductions.take(n as int).contains(d)
            && forall|i: int|
            0 <= i < n ==> measure::order_of((#[trigger] deductions[i]).price.taken.bits)
                <= measure::order_of(d.price.taken.bits),
    decreases n,
{
    let all = deductions.take(n as int);
    assert(all[n - 1] == deductions[n - 1]);
    if n > 1 {
        lemma_worst(deductions, (n - 1) as nat);
        let d = worst_of(deductions, (n - 1) as nat).unwrap();
        let front = deductions.take(n - 1);
        let i = choose|i: int| 0 <= i < front.len() && front[i] == d;
        assert(all[i] == d);
    } else {
        assert(worst_of(deductions, 0) is None);
    }
}

/// The worst rule's findings are shown, each by its file, its line and what it
/// says.
pub proof fn lemma_worst_shown(out: Seq<Text>, findings: Seq<FindingV>, n: nat)
    requires
        n <= findings.len(),
    ensures
        finding_lines(out, findings, n) == out + Seq::new(
            n,
            |i: int|
                "      "@ + findings[i].file + ":"@ + text::decimal_of(findings[i].line as nat)
                    + "  "@ + findings[i].what,
        ),
    decreases n,
{
    let line = |i: int|
        "      "@ + findings[i].file + ":"@ + text::decimal_of(findings[i].line as nat) + "  "@
            + findings[i].what;
    if n > 0 {
        lemma_worst_shown(out, findings, (n - 1) as nat);
        assert((out + Seq::new((n - 1) as nat, line)).push(line(n - 1)) =~= out + Seq::new(n, line));
    } else {
        assert(out + Seq::new(0, line) =~= out);
    }
}

/// Every category of a rule has a place among the scores, though nothing was taken
/// from it.
pub proof fn lemma_categories_there(rules: Seq<(Text, RuleV)>, n: nat, i: int)
    requires
        0 <= i < n <= rules.len(),
    ensures
        table::lookup(categories(rules, n), rules[i].1.category) == Some(Seq::<RealV>::empty()),
    decreases n,
{
    let before = categories(rules, (n - 1) as nat);
    table::lemma_put_lookup(before, rules[n - 1].1.category, seq![], rules[i].1.category);
    if i < n - 1 {
        lemma_categories_there(rules, (n - 1) as nat, i);
    }
}

}
