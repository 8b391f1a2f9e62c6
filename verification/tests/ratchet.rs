//! Which way a change to the rules moves.

use cqx::config::{defaults, Config, Rule};
use cqx::measure::Real;
use cqx::ratchet::{compare, objections, tightens, Change, Direction};
use cqx::table::Table;

fn number(x: f64) -> Real {
    Real { bits: x.to_bits(), text: x.to_string() }
}

fn value(r: &Real) -> f64 {
    f64::from_bits(r.bits)
}

fn config() -> Config {
    Config {
        rules: defaults(),
        origins: Table::new(),
        min_score: None,
        exclude: Vec::new(),
        loaded_from: None,
    }
}

/// The rule everything below is measured against: a real one, with a real
/// ramp, so the directions are being decided about a shape that exists.
const RULE: &str = "oversized-files";

fn change_rule(config: &mut Config, name: &str, f: impl FnOnce(&mut Rule)) {
    let mut rule = config.rules.get(name).expect("a rule that ships by default").copy();
    f(&mut rule);
    config.rules.insert(name.to_string(), rule);
}

fn tweak(f: impl FnOnce(&mut Rule)) -> Config {
    let mut after = config();
    change_rule(&mut after, RULE, f);
    after
}

fn one(after: &Config) -> Change {
    let changes = compare(&config(), after);
    assert_eq!(changes.len(), 1, "expected one change, got {changes:#?}");
    changes.into_iter().next().unwrap()
}

#[test]
fn nothing_changed_is_not_a_ratchet() {
    let changes = compare(&config(), &config());
    assert!(changes.is_empty());
    // The important half: a no-op must not be approvable, or a caller that
    // checks `tightens` and nothing else can be handed an empty proposal.
    assert!(!tightens(&changes));
}

#[test]
fn less_tolerance_is_tighter() {
    let change = one(&tweak(|r| r.free = number(value(&r.free) / 2.0)));
    assert_eq!(change.direction, Direction::Tighter);
    assert_eq!(change.field, "free");
}

#[test]
fn more_tolerance_is_looser() {
    let change = one(&tweak(|r| r.free = number(value(&r.free) * 2.0)));
    assert_eq!(change.direction, Direction::Looser);
}

#[test]
fn a_steeper_ramp_is_tighter_and_a_shallower_one_is_not() {
    let steeper = one(&tweak(|r| r.full = number(value(&r.full) / 2.0)));
    assert_eq!(steeper.direction, Direction::Tighter);
    let shallower = one(&tweak(|r| r.full = number(value(&r.full) * 2.0)));
    assert_eq!(shallower.direction, Direction::Looser);
}

#[test]
fn more_at_stake_is_tighter() {
    let more = one(&tweak(|r| r.weight = number(value(&r.weight) + 10.0)));
    assert_eq!(more.direction, Direction::Tighter);
    let less = one(&tweak(|r| r.weight = number(value(&r.weight) - 10.0)));
    assert_eq!(less.direction, Direction::Looser);
}

#[test]
fn turning_a_rule_on_is_tighter_and_off_is_not() {
    let off = tweak(|r| r.enabled = false);
    assert_eq!(one(&off).direction, Direction::Looser);
    // And the other way round, from that config back to the default.
    let back = compare(&off, &config());
    assert_eq!(back.len(), 1);
    assert_eq!(back[0].direction, Direction::Tighter);
    assert!(tightens(&back));
}

#[test]
fn a_parameter_is_never_assumed() {
    // Smaller, which for `max_lines` is stricter — and this must still
    // refuse, because the next parameter will not be `max_lines`.
    let change = one(&tweak(|r| {
        r.params.insert("max_lines".into(), number(400.0));
    }));
    assert_eq!(change.direction, Direction::Unclear);
    assert_eq!(change.field, "params.max_lines");
    assert!(!tightens(&vec![change]));
}

#[test]
fn a_backwards_ramp_is_refused_even_though_both_halves_tighten() {
    let after = tweak(|r| {
        r.free = number(8.0);
        r.full = number(2.0);
    });
    let changes = compare(&config(), &after);
    assert!(!tightens(&changes));
    assert!(
        changes
            .iter()
            .any(|c| c.direction == Direction::Unclear && c.why.contains("run backwards")),
        "{changes:#?}"
    );
}

#[test]
fn excluding_code_is_looser_however_reasonable_it_is() {
    let mut after = config();
    after.exclude.push("vendor/".into());
    let change = one(&after);
    assert_eq!(change.direction, Direction::Looser);
    assert_eq!(change.field, "exclude");

    // And removing an exclusion is a tightening.
    let back = compare(&after, &config());
    assert_eq!(back.len(), 1);
    assert_eq!(back[0].direction, Direction::Tighter);
}

#[test]
fn raising_the_floor_is_tighter_and_removing_it_is_not() {
    let mut floored = config();
    floored.min_score = Some(70);
    assert_eq!(one(&floored).direction, Direction::Tighter);

    let mut higher = config();
    higher.min_score = Some(80);
    assert_eq!(compare(&floored, &higher)[0].direction, Direction::Tighter);
    assert_eq!(compare(&higher, &floored)[0].direction, Direction::Looser);
    assert_eq!(compare(&floored, &config())[0].direction, Direction::Looser);
}

#[test]
fn a_tightening_hidden_among_loosenings_is_still_refused() {
    let mut after = config();
    for name in ["oversized-files", "bare-string-params", "duplicated-bodies"] {
        change_rule(&mut after, name, |r| r.free = number(0.0));
    }
    after.exclude.push("crates/legacy/".into());

    let changes = compare(&config(), &after);
    assert!(!tightens(&changes));
    let refused = objections(&changes);
    assert_eq!(refused.len(), 1, "only the exclusion should be objected to");
    assert_eq!(refused[0].field, "exclude");
}

#[test]
fn every_default_rule_can_be_tightened_and_the_classification_holds() {
    for name in defaults().names() {
        let mut after = config();
        change_rule(&mut after, &name, |r| r.weight = number(value(&r.weight) + 1.0));
        let changes = compare(&config(), &after);
        assert!(tightens(&changes), "{name} could not be tightened: {changes:#?}");
        // What was tightened cannot be tightened back.
        assert!(!tightens(&compare(&after, &config())), "{name}");
    }
}

#[test]
fn a_rule_that_comes_or_goes_says_which_way_it_went() {
    let mut less = config();
    less.rules = Table::new();
    let gone = compare(&config(), &less);
    assert_eq!(gone.len(), config().rules.len());
    assert!(gone.iter().all(|c| c.direction == Direction::Unclear), "{gone:#?}");
    assert!(gone.iter().all(|c| c.before == "present" && c.after == "absent"), "{gone:#?}");
    assert!(!tightens(&gone));
    assert!(tightens(&compare(&less, &config())));
}

#[test]
fn a_direction_has_a_name() {
    assert_eq!(Direction::Tighter.name(), "tighter");
    assert_eq!(Direction::Looser.name(), "looser");
    assert_eq!(Direction::Unclear.name(), "unclear");
}

#[test]
fn the_fields_of_a_rule_are_told_in_order() {
    let after = tweak(|r| {
        r.category = "elsewhere".to_string();
        r.weight = number(value(&r.weight) + 1.0);
        r.free = number(9.0);
        r.full = number(2.0);
        r.enabled = !r.enabled;
        r.params.insert("max_lines".to_string(), number(12.0));
    });
    let changes = compare(&config(), &after);
    let fields: Vec<&str> = changes.iter().map(|c| c.field.as_str()).collect();
    assert_eq!(
        fields,
        ["category", "weight", "free", "free", "full", "enabled", "params.max_lines"],
        "{changes:#?}"
    );
    assert!(changes[3].why.contains("run backwards"), "{changes:#?}");
    assert!(changes.iter().all(|c| c.rule == RULE));
}

#[test]
fn turned_round_every_change_is_undone() {
    let mut after = tweak(|r| {
        r.weight = number(value(&r.weight) + 1.0);
        r.free = number(value(&r.free) / 2.0);
        r.params.insert("max_lines".to_string(), number(12.0));
    });
    after.min_score = Some(60);
    after.exclude.push("crates/legacy/".into());
    let told = |c: &Change, back: bool| {
        let (from, to) = if back { (&c.after, &c.before) } else { (&c.before, &c.after) };
        let direction = match (&c.direction, back) {
            (Direction::Tighter, true) => Direction::Looser,
            (Direction::Looser, true) => Direction::Tighter,
            (other, _) => *other,
        };
        format!("{} {} {from} {to} {direction:?}", c.rule, c.field)
    };
    let mut there: Vec<String> =
        compare(&config(), &after).iter().map(|c| told(c, true)).collect();
    let mut back: Vec<String> =
        compare(&after, &config()).iter().map(|c| told(c, false)).collect();
    there.sort();
    back.sort();
    assert_eq!(there.len(), 5);
    assert_eq!(there, back);
}
