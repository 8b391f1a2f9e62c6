//! Changing a rule.

use cqx::config::{Config, ConfigFile};
use cqx::edit::{self, Proposal};
use cqx::json::Json;
use cqx::measure::Real;
use cqx::ratchet::Direction;
use cqx::table::Table;

const PATH: &str = "cqx.json";

fn config_of(document: Option<&str>) -> Config {
    let file = document.map(|text| (PATH.to_string(), ConfigFile::read(text).expect("readable")));
    Config::resolve(file, &Table::new()).expect("resolves")
}

/// What setting a field would do to a file, or to none.
fn propose(
    document: Option<&str>,
    rule: &str,
    field: &str,
    value: &str,
    why: Option<&str>,
) -> Result<Proposal, String> {
    let before = config_of(document);
    let json = match document {
        Some(text) => Json::parse(text).expect("json"),
        None => edit::blank(),
    };
    let number =
        value.parse::<f64>().ok().map(|x| Real { bits: x.to_bits(), text: x.to_string() });
    edit::propose(PATH, &before, &json, rule, field, value, &number, why)
}

fn at<'a>(j: &'a Json, path: &[&str]) -> &'a Json {
    path.iter().fold(j, |here, key| here.get(key).unwrap_or(&Json::Null))
}

#[test]
fn a_whole_number_is_written_as_one() {
    let p = propose(None, "oversized-files", "weight", "40", None).unwrap();
    assert!(matches!(at(&p.document, &["rules", "oversized-files", "weight"]), Json::Whole(40)));
    let text = p.document.write();
    assert!(!text.contains("40.0"), "{text}");
}

#[test]
fn a_fraction_survives_being_one() {
    let p = propose(None, "oversized-files", "free", "1.5", None).unwrap();
    match at(&p.document, &["rules", "oversized-files", "free"]) {
        Json::Part(r) => assert_eq!(f64::from_bits(r.bits), 1.5),
        other => panic!("{other:?}"),
    }
    assert!(p.document.write().contains("1.5"));
}

#[test]
fn the_direction_is_the_ratchets_and_not_a_second_opinion() {
    let tighter = propose(None, "oversized-files", "free", "1.0", None).unwrap();
    assert!(tighter.tightens);
    assert_eq!(tighter.changes[0].direction, Direction::Tighter);

    // Below `full`, which is 12: one objection, the loosening itself.
    let looser = propose(None, "oversized-files", "free", "9.0", None).unwrap();
    assert!(!looser.tightens);
    assert_eq!(looser.objections().len(), 1);

    // Above it, the ramp inverts and that is a second, different problem.
    let broken = propose(None, "oversized-files", "free", "99.0", None).unwrap();
    assert_eq!(broken.objections().len(), 2, "{:#?}", broken.changes);
    assert!(broken.objections().iter().any(|c| c.why.contains("run backwards")));
}

/// A proposal is only worked out: what it was made from is as it was.
#[test]
fn proposing_writes_nothing() {
    let document = edit::blank();
    let before = document.write();
    let config = config_of(None);
    let number = Some(Real { bits: 1.0f64.to_bits(), text: "1".to_string() });
    edit::propose(PATH, &config, &document, "oversized-files", "free", "1.0", &number, None)
        .unwrap();
    assert_eq!(document.write(), before, "a proposal changed the document");
    assert_eq!(config.rules.get("oversized-files").unwrap().free.text, "3.5");
}

#[test]
fn writing_then_proposing_again_sees_the_first_change() {
    let written = propose(None, "oversized-files", "free", "1.0", None).unwrap().contents();

    // From 1.0, going back to 3.5 is now a loosening — which it would not
    // be if this read the defaults instead of the file it just wrote.
    let back = propose(Some(&written), "oversized-files", "free", "3.5", None).unwrap();
    assert!(!back.tightens, "{:#?}", back.changes);
}

#[test]
fn nothing_else_in_the_file_is_disturbed() {
    let file = r#"{"version":1,"min_score":70,"exclude":["vendor/"],"rules":{"exit-in-library":{"weight":50}},"somethingNew":42}"#;
    let p = propose(Some(file), "oversized-files", "weight", "40", None).unwrap();
    assert!(matches!(at(&p.document, &["min_score"]), Json::Whole(70)));
    assert_eq!(at(&p.document, &["exclude"]).write(), "[\"vendor/\"]");
    assert!(matches!(at(&p.document, &["rules", "exit-in-library", "weight"]), Json::Whole(50)));
    assert!(matches!(at(&p.document, &["somethingNew"]), Json::Whole(42)));
}

#[test]
fn a_reason_is_kept_beside_the_rule_and_does_not_break_reading_it() {
    let text = propose(
        None,
        "oversized-files",
        "weight",
        "40",
        Some("  we split files at review anyway  "),
    )
    .unwrap()
    .contents();
    assert!(text.contains("we split files at review anyway"), "{text}");
    assert!(!text.contains("  we split"), "{text}");
    let config = config_of(Some(&text));
    let weight = &config.rules.get("oversized-files").unwrap().weight;
    assert_eq!(f64::from_bits(weight.bits), 40.0);
}

#[test]
fn an_unknown_rule_or_field_is_refused_before_anything_is_read() {
    let e = propose(None, "no-such-rule", "weight", "1", None).err().expect("refused");
    assert!(e.contains("no rule named"), "{e}");
    let e = propose(None, "oversized-files", "colour", "1", None).err().expect("refused");
    assert!(e.contains("no field 'colour'"), "{e}");
    assert!(e.contains("max_lines"), "it should say what the rule accepts: {e}");
}

#[test]
fn enabled_takes_words_and_refuses_nonsense() {
    for word in ["true", "1", "yes"] {
        let p = propose(None, "oversized-files", "enabled", word, None).unwrap();
        assert!(matches!(p.value, Json::Bool(true)));
    }
    let e = propose(None, "oversized-files", "enabled", "maybe", None).err().expect("refused");
    assert!(e.contains("expects true or false"), "{e}");
}

#[test]
fn a_parameter_is_kept_among_the_parameters() {
    let p = propose(None, "oversized-files", "max_lines", "800", None).unwrap();
    assert!(matches!(
        at(&p.document, &["rules", "oversized-files", "params", "max_lines"]),
        Json::Whole(800)
    ));
    assert!(!p.tightens);
    assert_eq!(p.changes[0].direction, Direction::Unclear);
    let config = config_of(Some(&p.contents()));
    let held = config.rules.get("oversized-files").unwrap().params.get("max_lines").unwrap();
    assert_eq!(held.text, "800");
}

#[test]
fn a_value_that_is_no_number_is_refused() {
    let e = propose(None, "oversized-files", "weight", "many", None).err().expect("refused");
    assert!(e.contains("many"), "{e}");
}
