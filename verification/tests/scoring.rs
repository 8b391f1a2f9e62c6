//! From a stream to a score, a report and a verdict.

use cqx::config::{Config, ConfigFile, EnvValue, Origin};
use cqx::facts::Stream;
use cqx::frame;
use cqx::json::Json;
use cqx::measure::{self, Real};
use cqx::metrics::{self, Amount, Metrics};
use cqx::scan::{self, Against, Scanned};
use cqx::score::{self, Figures, Price};
use cqx::settings::{self, Toml};
use cqx::table::{Names, Table};
use cqx::{sarif, summary};

fn number(x: f64) -> Real {
    Real { bits: x.to_bits(), text: x.to_string() }
}

fn value(r: &Real) -> f64 {
    f64::from_bits(r.bits)
}

fn price(a: &score::Applied, lines: u64) -> Price {
    let value_of = match a.amount {
        Amount::Count(n) => n as f64 / (lines as f64 / 10_000.0).max(0.05),
        Amount::Share { part, whole } => part as f64 / whole.max(1) as f64,
    };
    let (free, full, weight) = (value(&a.free), value(&a.full), value(&a.weight));
    let taken = if value_of <= free {
        0.0
    } else {
        let fraction = ((value_of - free) / (full - free)).min(1.0);
        (weight * fraction * 10.0).round() / 10.0
    };
    Price {
        value: number(value_of),
        rounded: number((value_of * 1000.0).round() / 1000.0),
        value_shown: format!("{value_of:.2}"),
        taken: number(taken),
        taken_shown: format!("{taken:.1}"),
    }
}

/// A library that ends the process, in a file of a thousand lines.
const FACTS: &str = r#"{"t":"header","schema":"1","extractor":"rust","root":"x"}
{"t":"node","id":"pkg:lib","kind":"package","attrs":{"name":"lib"}}
{"t":"node","id":"file:lib/src/a.rs","kind":"file","attrs":{"path":"lib/src/a.rs","lines":1000}}
{"t":"node","id":"sym:lib::stop","kind":"symbol","attrs":{"name":"stop","lang:kind":"fn","lines":4}}
{"t":"node","id":"cap:exec","kind":"capability","attrs":{"name":"exec"}}
{"t":"edge","kind":"contains","from":"pkg:lib","to":"file:lib/src/a.rs","ev":[]}
{"t":"edge","kind":"contains","from":"file:lib/src/a.rs","to":"sym:lib::stop","ev":[]}
{"t":"edge","kind":"effect_exec","from":"sym:lib::stop","to":"cap:exec","ev":[{"file":"lib/src/a.rs","line":[7,7],"extractor":"rust"}],"attrs":{"op":"std::process::exit"}}
"#;

fn stream() -> Stream {
    Stream::from_ndjson(FACTS)
}

fn defaults() -> Config {
    Config::resolve(None, &Table::new()).expect("defaults")
}

struct Judged {
    scores: Table<u32>,
    deductions: Vec<score::Deduction>,
    metrics: Metrics,
}

fn judge(config: &Config) -> Judged {
    let metrics = Metrics::compute(&stream(), &config.exclude);
    let plan = score::plan(config, &metrics);
    let prices: Vec<Price> = plan.iter().map(|a| price(a, metrics.lines)).collect();
    let (losses, deductions) = score::score(config, &metrics, &prices);
    let mut scores: Table<u32> = Table::new();
    for i in 0..losses.len() {
        let lost: f64 = losses.value_at(i).iter().map(value).sum();
        scores.insert(losses.name_at(i).clone(), (100.0 - lost).max(0.0).round() as u32);
    }
    Judged { scores, deductions, metrics }
}

// --- metrics and scores ------------------------------------------------------

#[test]
fn an_exit_in_a_library_is_found_and_counted() {
    let m = Metrics::compute(&stream(), &Vec::new());
    assert_eq!(m.lines, 1000);
    let exits = m.get("exit-in-library").expect("measured");
    assert_eq!(exits.findings.len(), 1);
    assert_eq!(exits.findings[0].file, "lib/src/a.rs");
    assert_eq!(exits.findings[0].line, 7);
    assert!(matches!(exits.amount, Amount::Count(1)));
    assert!(m.get("no-such-rule").is_none());
}

#[test]
fn excluded_code_is_left_out_of_every_measure() {
    let m = Metrics::compute(&stream(), &vec!["lib/".to_string()]);
    assert_eq!(m.lines, 0);
    assert_eq!(m.get("exit-in-library").map(|e| e.findings.len()), Some(0));
    let m = Metrics::compute(&stream(), &vec!["other/".to_string()]);
    assert_eq!(m.lines, 1000);
    assert_eq!(m.get("exit-in-library").map(|e| e.findings.len()), Some(1));
}

#[test]
fn the_package_of_a_symbol_is_its_first_part() {
    assert_eq!(metrics::package_of("sym:deka_host::fs::op_read").as_deref(), Some("deka_host"));
    assert_eq!(metrics::package_of("file:a.rs"), None);
}

#[test]
fn a_category_starts_at_a_hundred_and_loses_what_its_rules_take() {
    let config = defaults();
    let judged = judge(&config);
    let exit = judged.deductions.iter().find(|d| d.rule == "exit-in-library").expect("a rule");
    assert!(value(&exit.price.taken) > 0.0);
    for i in 0..judged.scores.len() {
        let category = judged.scores.name_at(i);
        let lost: f64 = judged
            .deductions
            .iter()
            .filter(|d| &d.category == category)
            .map(|d| value(&d.price.taken))
            .sum();
        assert_eq!(*judged.scores.value_at(i), (100.0 - lost).max(0.0).round() as u32);
    }
}

#[test]
fn a_rule_at_its_cap_says_so() {
    let config = defaults();
    let judged = judge(&config);
    for d in &judged.deductions {
        let capped = value(&d.price.taken) >= value(&d.weight) && value(&d.weight) > 0.0;
        assert_eq!(d.capped, capped, "{}", d.rule);
    }
}

#[test]
fn a_rule_that_is_off_takes_nothing() {
    let file = ConfigFile::read(r#"{"rules":{"exit-in-library":{"enabled":false}}}"#).unwrap();
    let config =
        Config::resolve(Some(("cqx.json".to_string(), file)), &Table::new()).expect("resolves");
    let judged = judge(&config);
    assert!(judged.deductions.iter().all(|d| d.rule != "exit-in-library"));
}

#[test]
fn the_lowest_category_is_held_to_the_floor() {
    let mut scores: Table<u32> = Table::new();
    scores.insert("quality".to_string(), 70);
    scores.insert("boundaries".to_string(), 60);
    assert_eq!(score::below_floor(&scores, None), None);
    assert_eq!(score::below_floor(&scores, Some(60)), None);
    assert_eq!(
        score::below_floor(&scores, Some(65)).as_deref(),
        Some("cqx: boundaries scored 60, below the required 65")
    );
    assert_eq!(score::below_floor(&Table::new(), Some(65)), None);
    assert_eq!((score::exit_code(true), score::exit_code(false)), (1, 0));
}

#[test]
fn a_report_names_the_worst_rule_and_where_it_was_broken() {
    let config = defaults();
    let judged = judge(&config);
    let lines = score::report(&config, &judged.scores, &judged.deductions, &judged.metrics);
    assert_eq!(lines[0], "CodeQuality Score · 1000 product lines");
    let text = lines.join("\n");
    assert!(text.contains("worst: exit-in-library — first findings"), "{text}");
    assert!(text.contains("      lib/src/a.rs:7  "), "{text}");
}

#[test]
fn a_report_is_written_with_its_findings() {
    let config = defaults();
    let judged = judge(&config);
    let j = score::report_json(&config, &judged.scores, &judged.deductions, &judged.metrics);
    assert!(matches!(j.get("lines"), Some(Json::Whole(1000))));
    let rules = j.get("rules").and_then(Json::as_list).expect("rules");
    let exit = rules
        .iter()
        .find(|r| matches!(r.get("rule"), Some(Json::Str(s)) if s == "exit-in-library"))
        .expect("the rule");
    assert!(matches!(exit.get("total_findings"), Some(Json::Whole(1))));
    let findings = exit.get("findings").and_then(Json::as_list).expect("findings");
    assert!(matches!(findings[0].get("file"), Some(Json::Str(s)) if s == "lib/src/a.rs"));
    assert!(j.get("config").and_then(|c| c.get("rules")).is_some());
}

#[test]
fn an_explanation_has_a_row_for_every_rule() {
    let config = defaults();
    let figures: Vec<Figures> = (0..config.rules.len())
        .map(|i| {
            let rule = config.rules.value_at(i);
            Figures {
                weight: format!("{:.0}", value(&rule.weight)),
                free: format!("{:.2}", value(&rule.free)),
                full: format!("{:.2}", value(&rule.full)),
            }
        })
        .collect();
    let lines = score::explain(&config, &figures);
    assert_eq!(lines[0], "configuration: built-in defaults (no cqx.json found)");
    let rule = config.rules.get("exit-in-library").unwrap();
    let wanted = format!(
        "{:<26}{:<13}{:>8.0}{:>8.2}{:>8.2}   {}",
        "exit-in-library",
        rule.category,
        value(&rule.weight),
        value(&rule.free),
        value(&rule.full),
        "default"
    );
    assert!(lines.contains(&wanted), "{lines:#?}");
}

// --- configuration -----------------------------------------------------------

fn env(pairs: &[(&str, &str)]) -> Table<EnvValue> {
    let mut out: Table<EnvValue> = Table::new();
    for (name, text) in pairs {
        let number = text.parse::<f64>().ok().map(number);
        out.insert(name.to_string(), EnvValue { text: text.to_string(), number });
    }
    out
}

fn resolve(file: Option<&str>, vars: &[(&str, &str)]) -> Result<Config, String> {
    let file = file.map(|t| ("cqx.json".to_string(), ConfigFile::read(t).expect("readable")));
    Config::resolve(file, &env(vars))
}

#[test]
fn the_environment_is_laid_over_the_file_and_the_file_over_the_defaults() {
    let file = r#"{"version":1,"min_score":70,"exclude":["vendor/"],
        "rules":{"exit-in-library":{"weight":12},"oversized-files":{"params":{"max_lines":500}}}}"#;
    let config = resolve(
        Some(file),
        &[("CQX_RULE_EXIT_IN_LIBRARY_WEIGHT", "9.5"), ("CQX_MIN_SCORE", "80")],
    )
    .expect("resolves");
    let exit = config.rules.get("exit-in-library").unwrap();
    assert_eq!(value(&exit.weight), 9.5);
    assert!(matches!(config.origins.get("exit-in-library"), Some(Origin::Env)));
    let files = config.rules.get("oversized-files").unwrap();
    assert_eq!(value(files.params.get("max_lines").unwrap()), 500.0);
    assert!(matches!(config.origins.get("oversized-files"), Some(Origin::File)));
    assert!(matches!(config.origins.get("shell-invocation"), Some(Origin::Default)));
    assert_eq!(config.min_score, Some(80));
    assert_eq!(config.exclude, vec!["vendor/".to_string()]);
    assert_eq!(config.loaded_from.as_deref(), Some("cqx.json"));
}

#[test]
fn a_file_that_makes_no_sense_is_refused() {
    let e = resolve(Some(r#"{"rules":{"no-such-rule":{"weight":1}}}"#), &[]).err().unwrap();
    assert!(e.contains("cqx.json: no rule named 'no-such-rule'"), "{e}");
    let e = resolve(Some(r#"{"version":2}"#), &[]).err().unwrap();
    assert!(e.contains("config version 2 is newer"), "{e}");
    let e = resolve(None, &[("CQX_RULE_EXIT_IN_LIBRARY_WEIGHT", "lots")]).err().unwrap();
    assert!(e.contains("CQX_RULE_EXIT_IN_LIBRARY_WEIGHT"), "{e}");
    let e = resolve(Some(r#"{"rules":{"oversized-files":{"free":5,"full":5}}}"#), &[])
        .err()
        .unwrap();
    assert!(e.contains("oversized-files"), "{e}");
    assert!(ConfigFile::read(r#"{"rules":{"oversized-files":{"weight":"heavy"}}}"#).is_err());
    assert!(ConfigFile::read("nonsense").is_err());
    let listed = r#"[1,{"oversized-files":[7,null,null,false,null]},50,["gen/"]]"#;
    let file = ConfigFile::read(listed).expect("a configuration");
    assert_eq!((file.version, file.min_score, file.exclude.len()), (1, Some(50), 1));
    let patch = file.rules.get("oversized-files").expect("a patch");
    assert_eq!(patch.weight.as_ref().map(|r| f64::from_bits(r.bits)), Some(7.0));
    assert!(patch.free.is_none());
    assert_eq!(patch.enabled, Some(false));
    assert_eq!(ConfigFile::read("[]").expect("nothing said").version, 0);
    assert!(ConfigFile::read("[1,{},50,[],0]").is_err());
    assert!(ConfigFile::read(r#"{"version":1,"version":1}"#).is_err());
    assert!(ConfigFile::read(r#"{"rules":{"oversized-files":{"free":1,"free":2}}}"#).is_err());
    assert!(ConfigFile::read(r#"{"other":1,"other":2}"#).is_ok());
    let twice = r#"{"rules":{"oversized-files":{"free":1},"oversized-files":{"full":9}}}"#;
    let file = ConfigFile::read(twice).expect("a configuration");
    assert!(file.rules.get("oversized-files").expect("a patch").free.is_none());
    assert!(ConfigFile::read(r#"{"rules":{"oversized-files":[7]}}"#).is_err());
}

#[test]
fn what_a_configuration_does_not_know_is_passed_over() {
    let deep = format!("{}{}", "[".repeat(300), "]".repeat(300));
    for odd in ["1e999", r#""\ud800""#, deep.as_str()] {
        let with = |text: &str| ConfigFile::read(&text.replace("ODD", odd));
        let file = with(r#"{"other": ODD, "min_score": 7}"#).expect("a configuration");
        assert_eq!(file.min_score, Some(7));
        assert!(with(r#"{"rules":{"oversized-files":{"why": [ODD], "free": 1}}}"#).is_ok());
        assert!(with(r#"{"rules":{"oversized-files":{"free": ODD}}}"#).is_err());
        assert!(with(r#"{"rules":{"oversized-files":ODD}}"#).is_err());
        assert!(with(r#"{"min_score": ODD}"#).is_err());
        assert!(with(r#"{"exclude": [ODD]}"#).is_err());
        assert!(with("ODD").is_err());
    }
    assert!(ConfigFile::read(r#"{"other": 1e}"#).is_err());
    assert!(ConfigFile::read(r#"{"version": 1} 2"#).is_err());
}

// --- scanning ----------------------------------------------------------------

const REPORT: &str = r#"{
    "scores": {"boundaries": 40, "quality": 95, "style": 60},
    "rules": [
        {"rule": "cheap", "category": "style", "weight": 10, "deducted": 2.0, "total_findings": 1,
         "findings": [{"what": "small", "file": "b.rs", "line": 0}]},
        {"rule": "dear", "category": "boundaries", "weight": 10, "deducted": 9.5,
         "total_findings": 12, "describes": "too dear", "remedy": "spend less",
         "findings": [{"what": "big", "file": "src/a.rs", "line": 2, "col": [6, 9]}]},
        {"rule": "free", "category": "quality", "weight": 0, "deducted": 0, "total_findings": 0,
         "findings": []}
    ],
    "config": {"min_score": null}
}"#;

fn scanned(report: Json) -> Scanned {
    Scanned {
        report,
        files: 3,
        lines: 120,
        ms: 250,
        paths: vec!["b.rs".to_string(), "src/a.rs".to_string()],
    }
}

fn here() -> Scanned {
    scanned(Json::parse(REPORT).expect("json"))
}

fn before(scores: &str) -> Scanned {
    scanned(Json::parse(&format!(r#"{{"scores":{scores}}}"#)).expect("json"))
}

#[test]
fn a_run_is_refused_for_what_got_worse_and_for_what_is_too_low() {
    assert_eq!(scan::gate(&here(), &None), Vec::<String>::new());
    let then = before(r#"{"boundaries": 50, "quality": 90, "other": 99}"#);
    let against = Some(Against { reference: "main", scanned: &then });
    assert_eq!(
        scan::gate(&here(), &against),
        ["boundaries is 40, down from 50 on main"]
    );
    let floored = scanned(scan::with_floor(&here().report, 60));
    assert_eq!(
        scan::gate(&floored, &against),
        [
            "boundaries is 40, down from 50 on main",
            "boundaries scored 40, below the required 60"
        ]
    );
}

#[test]
fn a_report_carries_what_it_cost_and_what_it_was_compared_with() {
    let report = scan::with_cost(&here().report, 58, 7802, 113);
    assert_eq!(
        report.get("scan").unwrap().write(),
        r#"{"files":58,"lines":7802,"ms":113,"cqx":"0.1.0"}"#
    );
    let then = before(r#"{"quality": 90}"#);
    let report = scan::with_against(&report, "main", &then);
    assert_eq!(
        report.get("against").unwrap().write(),
        r#"{"ref":"main","scores":{"quality":90},"lines":120}"#
    );
    assert_eq!(
        here().scores(),
        vec![
            ("boundaries".to_string(), 40),
            ("quality".to_string(), 95),
            ("style".to_string(), 60)
        ]
    );
}

#[test]
fn the_line_of_code_is_put_beside_a_finding() {
    let mut sources: Table<String> = Table::new();
    sources.insert("src/a.rs".to_string(), "first\n    let bad = 1;\n".to_string());
    let report = scan::quote(&here().report, &sources);
    let rules = report.get("rules").and_then(Json::as_list).unwrap();
    let found = |i: usize| rules[i].get("findings").and_then(Json::as_list).unwrap();
    assert!(matches!(found(1)[0].get("text"), Some(Json::Str(s)) if s == "    let bad = 1;"));
    assert!(found(0)[0].get("text").is_none());
}

#[test]
fn a_person_reads_the_worst_first_with_the_code_marked() {
    let mut sources: Table<String> = Table::new();
    sources.insert("src/a.rs".to_string(), "first\n    let bad = 1;\n".to_string());
    let run = scanned(scan::quote(&here().report, &sources));
    let then = before(r#"{"boundaries": 50, "quality": 95, "style": 55}"#);
    let against = Some(Against { reference: "main", scanned: &then });
    let lines = scan::report(&run, "0.2", &against);
    assert_eq!(
        lines,
        [
            "cqx 0.1.0 · 3 files · 120 lines · 0.2s",
            "",
            "  src/a.rs:2",
            "      let bad = 1;",
            "        ^^^",
            "      big  [rust/dear]",
            "",
            "  b.rs",
            "      small  [rust/cheap]",
            "",
            "  … 11 more",
            "",
            "  boundaries      40   −10",
            "  quality         95      ",
            "  style           60   +5",
        ]
    );
}

#[test]
fn only_so_many_findings_are_shown() {
    let findings: Vec<String> =
        (0..12).map(|i| format!(r#"{{"what":"w{i}","file":"f.rs","line":{i}}}"#)).collect();
    let text = format!(
        r#"{{"scores":{{}},"rules":[{{"rule":"r","deducted":1.5,"total_findings":12,"findings":[{}]}}]}}"#,
        findings.join(",")
    );
    let lines = scan::report(&scanned(Json::parse(&text).unwrap()), "1.0", &None);
    assert_eq!(lines.iter().filter(|l| l.contains("[rust/r]")).count(), scan::SHOWN);
    assert!(lines.contains(&"  … 4 more".to_string()), "{lines:#?}");
}

#[test]
fn a_finding_with_no_place_in_the_tree_is_left_out_of_sarif() {
    let mut present: Names = Table::new();
    present.insert("src/a.rs".to_string(), ());
    let j = sarif::build(&here().report, &present, &here().paths);
    let runs = j.get("runs").and_then(Json::as_list).unwrap();
    let results = runs[0].get("results").and_then(Json::as_list).unwrap();
    assert_eq!(results.len(), 1);
    assert_eq!(
        results[0].write(),
        r#"{"ruleId":"rust/dear","level":"error","message":{"text":"big"},"locations":[{"physicalLocation":{"artifactLocation":{"uri":"src/a.rs"},"region":{"startLine":2,"startColumn":7,"endColumn":10}}}],"partialFingerprints":{"cqx/v1":"rust/dear:src/a.rs:big"}}"#
    );
    let driver = runs[0].get("tool").and_then(|t| t.get("driver")).unwrap();
    let rules = driver.get("rules").and_then(Json::as_list).unwrap();
    let levels: Vec<String> = rules
        .iter()
        .map(|r| r.get("defaultConfiguration").unwrap().write())
        .collect();
    assert_eq!(
        levels,
        [r#"{"level":"warning"}"#, r#"{"level":"error"}"#, r#"{"level":"note"}"#]
    );
    let artifacts = runs[0].get("artifacts").and_then(Json::as_list).unwrap();
    assert_eq!(
        artifacts[0].write(),
        r#"{"location":{"uri":"b.rs"},"roles":["analysisTarget"]}"#
    );
    assert!(matches!(j.get("$schema"), Some(Json::Str(s)) if s == sarif::SCHEMA));
}

#[test]
fn a_result_is_known_by_the_same_mark_when_its_lines_move() {
    let mut present: Names = Table::new();
    present.insert("src/a.rs".to_string(), ());
    let moved = REPORT.replace(r#""line": 2, "col": [6, 9]"#, r#""line": 40, "col": [1, 4]"#);
    let of = |text: &str| {
        let j = sarif::build(&Json::parse(text).unwrap(), &present, &here().paths);
        let runs = j.get("runs").and_then(Json::as_list).unwrap();
        let results = runs[0].get("results").and_then(Json::as_list).unwrap();
        let mark = results[0].get("partialFingerprints").unwrap().write();
        let place = results[0].get("locations").unwrap().write();
        (mark, place)
    };
    assert_eq!(of(REPORT).0, of(&moved).0);
    assert_ne!(of(REPORT).1, of(&moved).1);
}

#[test]
fn a_summary_has_the_scores_the_movement_and_the_cost() {
    let then = before(r#"{"boundaries": 50, "quality": 95}"#);
    let against = Some(Against { reference: "main", scanned: &then });
    let shown = vec!["2.0".to_string(), "9.5".to_string(), "0.0".to_string()];
    let text = summary::build(&here(), "0.2", &shown, &against);
    assert_eq!(
        text,
        "## CodeQuality Score\n\n\
         | | score | against `main` |\n|---|--:|--:|\n\
         | 🔴 boundaries | **40** | **−10** |\n\
         | 🟢 quality | **95** | — |\n\
         | 🟡 style | **60** | |\n\
         \n3 files · 120 lines · 0.2s · cqx 0.1.0\n\
         \n<details><summary>What it cost</summary>\n\n| rule | findings | cost |\n|---|--:|--:|\n\
         | [`rust/dear`](https://docs.cqx.dev) | 12 | −9.5 |\n\
         | [`rust/cheap`](https://docs.cqx.dev) | 1 | −2.0 |\n\
         \n</details>\n"
    );
}

// --- the edges of the library ------------------------------------------------

#[test]
fn a_response_is_framed_by_its_length() {
    let framed = frame::respond(&b"hello".to_vec());
    assert_eq!(framed, [5, 0, 0, 0, b'h', b'e', b'l', b'l', b'o']);
    let long = vec![7u8; 300];
    let framed = frame::respond(&long);
    assert_eq!(&framed[..4], &300u32.to_le_bytes());
    assert_eq!(framed.len(), 304);
    assert!(frame::score_fault("bad").write().contains("bad"));
    assert!(frame::facts_fault("bad").write().contains("bad"));
}

#[test]
fn json_says_what_it_was_given() {
    let text = r#"{"b":[1,-2,3.5,true,null,"x\n"],"a":{"z":0}}"#;
    let j = Json::parse(text).expect("json");
    assert_eq!(j.write(), text);
    match &j.get("b").and_then(Json::as_list).unwrap()[2] {
        Json::Part(r) => assert_eq!(value(r), 3.5),
        other => panic!("{other:?}"),
    }
    assert_eq!(j.get("a").unwrap().lay_out(), "{\n  \"z\": 0\n}");
    assert!(Json::parse("{").is_none());
}

#[test]
fn toml_is_read_or_the_reason_is_given() {
    let t = Toml::parse("[package]\nname = \"x\"\nn = 3\nlist = [\"a\", \"b\"]\non = true\n")
        .expect("toml");
    let package = t.get("package");
    assert_eq!(settings::str_in(settings::get_in(package, "name")).as_deref(), Some("x"));
    assert_eq!(settings::bool_in(settings::get_in(package, "on")), Some(true));
    assert_eq!(settings::strings_in(settings::get_in(package, "list")), ["a", "b"]);
    assert_eq!(settings::str_in(settings::get_in(package, "n")), None);
    assert!(matches!(t, Toml::Table(_)));
    let fault = Toml::parse("[package\n").err().expect("a fault");
    assert!(fault.contains("TOML parse error"), "{fault}");
    assert!(Toml::read("= 1").is_none());
}

#[test]
fn numbers_are_ordered_by_what_they_are_worth() {
    assert!(measure::is_below((-1.5f64).to_bits(), 0.25f64.to_bits()));
    assert!(measure::is_below(0.25f64.to_bits(), 3.0f64.to_bits()));
    assert!(!measure::is_below(3.0f64.to_bits(), 3.0f64.to_bits()));
    assert!(!measure::is_below(f64::NAN.to_bits(), 3.0f64.to_bits()));
    assert!(measure::is_level(0.0f64.to_bits(), (-0.0f64).to_bits()));
    assert!(!measure::is_bounded(f64::INFINITY.to_bits()));
    assert!(measure::is_bounded(1e300f64.to_bits()));
}
