//! What is told of a repository: its past, its graph, its facts.

use cqx::facts::Stream;
use cqx::history::{self, CommitScore, History};
use cqx::json::Json;
use cqx::prepass::Shared;
use cqx::query::{self, Datum, Request, Row};
use cqx::said;
use cqx::table::Table;
use cqx::view::{self, Meta};

fn scores(rows: &[(&str, u32)]) -> Table<u32> {
    let mut out: Table<u32> = Table::new();
    for (name, n) in rows {
        out.insert(name.to_string(), *n);
    }
    out
}

// --- history -----------------------------------------------------------------

#[test]
fn every_form_of_a_remote_names_one_page() {
    for raw in [
        "git@github.com:owner/repo.git",
        "ssh://git@github.com/owner/repo.git",
        "https://github.com/owner/repo.git\n",
        "https://github.com/owner/repo/",
    ] {
        assert_eq!(
            history::remote_url(raw).as_deref(),
            Some("https://github.com/owner/repo"),
            "{raw}"
        );
    }
    assert_eq!(history::remote_url("git@github.com").as_deref(), None);
    assert_eq!(history::remote_url("/srv/repo").as_deref(), None);
}

#[test]
fn a_page_of_commits_is_only_given_where_the_layout_is_known() {
    assert_eq!(
        history::commits_url("https://github.com/o/r").as_deref(),
        Some("https://github.com/o/r/commits/")
    );
    assert_eq!(
        history::commits_url("https://gitlab.com/o/r").as_deref(),
        Some("https://gitlab.com/o/r/-/commits/")
    );
    assert_eq!(history::commits_url("https://example.org/o/r"), None);
}

#[test]
fn a_name_comes_from_the_remote_or_from_whoever_publishes() {
    let remote = Some("https://github.com/dekaruntime/deka".to_string());
    assert_eq!(history::slug("https://github.com/dekaruntime/deka").as_deref(), Some("dekaruntime/deka"));
    assert_eq!(history::slug("https://github.com/dekaruntime"), None);
    assert_eq!(history::slug("https://github.com//deka"), None);
    assert_eq!(history::published_as(Some("/a/b/"), &remote).as_deref(), Some("a/b"));
    assert_eq!(history::published_as(None, &remote).as_deref(), Some("dekaruntime/deka"));
    assert_eq!(history::published_as(None, &None), None);
    assert_eq!(history::branch_name(Some("main\n")), "main");
    assert_eq!(history::branch_name(Some("HEAD\n")), "detached");
    assert_eq!(history::branch_name(None), "unknown");
}

#[test]
fn a_walk_is_first_parents_oldest_first() {
    let head = ["rev-list", "--first-parent", "--reverse"];
    let ask = |since, commits| history::walk(since, commits, history::COMMITS);
    assert_eq!(ask(None, None), [&head[..], &["-n", "20", "HEAD"]].concat());
    assert_eq!(ask(None, Some("7")), [&head[..], &["-n", "7", "HEAD"]].concat());
    assert_eq!(ask(None, Some("few")), [&head[..], &["-n", "20", "HEAD"]].concat());
    assert_eq!(ask(Some("v1"), Some("7")), [&head[..], &["v1..HEAD"]].concat());
    assert_eq!(history::shas("a1\n\nb2\n"), ["a1", "b2"]);
    assert_eq!(history::abbreviated("0123456789abcdef", 12), "0123456789ab");
}

fn commit() -> CommitScore {
    let said = "abc123\u{1f}Fix it\u{1f}Someone\u{1f}2024-01-02T03:04:05Z";
    CommitScore::new("abc123def456", None, said, 900, scores(&[("quality", 80), ("style", 70)]))
}

#[test]
fn a_commit_is_what_git_said_of_it() {
    let c = commit();
    assert_eq!(c.short, "abc123");
    assert_eq!(c.subject, "Fix it");
    assert_eq!(c.author, "Someone");
    assert_eq!(c.date, "2024-01-02T03:04:05Z");
    let given = CommitScore::new("abc123def456", Some("abc123de"), "Fix it", 1, Table::new());
    assert_eq!((given.short.as_str(), given.subject.as_str()), ("abc123de", "Fix it"));
    assert_eq!(given.author, "");
}

#[test]
fn a_commit_that_was_written_reads_back() {
    let mut c = commit();
    c.delta.insert("quality".to_string(), -3);
    let text = c.write().write();
    let back = CommitScore::read(&Json::parse(&text).expect("json")).expect("a commit");
    assert_eq!(back.write().write(), text);
    assert_eq!(back.delta.get("quality"), Some(&-3));
    assert!(CommitScore::read(&Json::parse("{}").unwrap()).is_none());
    let listed = r#"["s","h","j","a","d",9,{"quality":80}]"#;
    let listed = CommitScore::read(&Json::parse(listed).unwrap()).expect("a commit");
    assert_eq!((listed.sha.as_str(), listed.date.as_str(), listed.lines), ("s", "d", 9));
    assert_eq!(listed.scores.get("quality"), Some(&80));
    let heard = |text: &str| CommitScore::read(&said::read(text).expect("a value"));
    let kept = r#"{"sha":"s","short":"h","subject":"j","author":"a","date":"d","lines":9,
        "scores":{"quality":1,"quality":80}}"#;
    assert_eq!(heard(kept).expect("a commit").scores.get("quality"), Some(&80));
    assert!(heard(&kept.replace("\"lines\":9", "\"lines\":9,\"lines\":9")).is_none());
    assert!(heard(&kept.replace("\"quality\":1", "\"quality\":\"bad\"")).is_none());
    assert!(CommitScore::read(&Json::parse(r#"["s","h","j","a","d",9]"#).unwrap()).is_none());
}

#[test]
fn a_change_is_against_the_commit_before() {
    let now = scores(&[("new", 50), ("quality", 80), ("style", 70)]);
    let then = scores(&[("quality", 85), ("style", 70)]);
    let delta = history::delta(&now, &then);
    assert_eq!(delta.len(), 1);
    assert_eq!(delta.get("quality"), Some(&-5));
}

#[test]
fn a_walk_tells_each_commit_against_the_one_before() {
    let scored = |quality: u32| {
        let rows = scores(&[("quality", quality), ("style", 70)]);
        CommitScore::new("abc123def456", Some("abc123"), "Fix it", 1, rows)
    };
    let mut walk: Vec<CommitScore> = Vec::new();
    for quality in [80, 75, 75, 90] {
        history::add(&mut walk, scored(quality));
    }
    let deltas: Vec<Option<&i64>> = walk.iter().map(|c| c.delta.get("quality")).collect();
    assert_eq!(deltas, [None, Some(&-5), None, Some(&15)]);
    assert!(walk.iter().all(|c| c.delta.get("style").is_none()));
}

#[test]
fn progress_is_told_on_one_line() {
    let c = commit();
    assert_eq!(
        history::scored_line(1, 20, &c),
        format!("  [{:>3}/{}] {} {:<52} {}", 1, 20, "abc123", "Fix it", "qua:80 sty:70")
    );
    assert_eq!(
        history::exported_line(2, 5, &c, true),
        format!("  [{}/{}] {} {:<48} {}{}", 2, 5, "abc123", "Fix it", "qua:80 sty:70", "  (already exported)")
    );
}

#[test]
fn an_exported_dataset_gives_its_scores_back() {
    let j = Json::parse(r#"{"score":{"scores":{"quality":80},"lines":12}}"#).unwrap();
    let (held, lines) = history::read_exported(&j).expect("scores");
    assert_eq!((held.get("quality"), lines), (Some(&80), 12));
    assert!(history::read_exported(&Json::parse(r#"{"score":{}}"#).unwrap()).is_none());
    let bad = Json::parse(r#"{"score":{"scores":{"quality":-1}}}"#).unwrap();
    assert!(history::read_exported(&bad).is_none());
}

#[test]
fn a_history_names_the_branch_and_the_configuration() {
    let h = History {
        repo: "/r".to_string(),
        branch: "main".to_string(),
        remote: None,
        commits_url: None,
        generated: "now".to_string(),
        config: Json::parse(r#"{"k":1}"#).unwrap(),
        commits: vec![commit()],
    };
    let j = h.write();
    assert!(matches!(j.get("branch"), Some(Json::Str(s)) if s == "main"));
    assert_eq!(j.get("config").unwrap().write(), r#"{"k":1}"#);
    assert_eq!(j.get("commits").and_then(Json::as_list).unwrap().len(), 1);
    let index = h.write_index();
    assert!(matches!(index.get("remote"), Some(Json::Null)));
}

// --- the graph ---------------------------------------------------------------

const FACTS: &str = r#"{"t":"node","id":"pkg:a","kind":"package","attrs":{"name":"a"}}
{"t":"node","id":"pkg:b","kind":"package","attrs":{"name":"b"}}
{"t":"node","id":"sym:a::f","kind":"symbol","attrs":{"name":"f","lang:kind":"fn","lines":3}}
{"t":"edge","kind":"depends_on","from":"pkg:a","to":"pkg:b","ev":[{"file":"a/Cargo.toml","line":[5,5],"extractor":"rust"}]}
{"t":"edge","kind":"calls","from":"sym:a::f","to":"ext:gone","ev":[]}
"#;

fn text(d: Option<&Datum>) -> &str {
    match d {
        Some(Datum::Str(s)) => s,
        _ => "?",
    }
}

#[test]
fn a_stream_is_loaded_by_label_and_by_relationship() {
    let loading = query::load(&Stream::from_ndjson(FACTS));
    assert_eq!(loading.nodes.len(), 3);
    assert_eq!(loading.edges.len(), 1);
    assert_eq!(loading.dangling, 1);
    assert!(loading.nodes[2].query.starts_with("CREATE (n:Symbol {id: $id"));
    assert_eq!(text(loading.nodes[2].params.get("pkg")), "a");
    assert_eq!(text(loading.nodes[2].params.get("lang_kind")), "fn");
    assert!(matches!(loading.nodes[2].params.get("lines"), Some(Datum::Int(3))));
    assert!(loading.edges[0].query.contains("CREATE (a)-[:depends_on {"));
    assert!(matches!(loading.edges[0].params.get("line"), Some(Datum::Int(5))));
}

#[test]
fn a_query_is_named_or_given() {
    assert!(matches!(query::request(Some("list"), None), Ok(Request::List)));
    match query::request(Some("silenced"), Some("ignored")) {
        Ok(Request::Run(q)) => assert!(q.contains("e.breadth = 'broad'")),
        _ => panic!("a query"),
    }
    match query::request(None, Some("RETURN 1")) {
        Ok(Request::Run(q)) => assert_eq!(q, "RETURN 1"),
        _ => panic!("a query"),
    }
    assert_eq!(
        query::request(Some("nope"), None).err().as_deref(),
        Some("no named query 'nope'; try --named list")
    );
    assert_eq!(query::request(None, None).err().as_deref(), Some("give a query, or --named <name>"));
    let listed = query::list_named();
    assert_eq!(listed[0], "named queries:");
    assert_eq!(listed.len(), query::named().len() + 1);
    assert_eq!(listed[1], format!("  {:<16} {}", "exit-in-library", "library crates that end the process"));
}

fn row(fields: Vec<(&str, Datum)>) -> Row {
    let mut out: Row = Table::new();
    for (name, d) in fields {
        out.insert(name.to_string(), d);
    }
    out
}

#[test]
fn a_table_has_the_columns_in_the_order_they_were_asked_for() {
    let rows = vec![
        row(vec![("s.name", Datum::Str("stop".into())), ("e.line", Datum::Int(7))]),
        row(vec![("s.name", Datum::Null), ("e.line", Datum::Bool(true))]),
    ];
    let lines = query::table("match (s) RETURN s.name, e.line ORDER BY s.name", &rows);
    assert_eq!(
        lines,
        ["  s.name  e.line", "  ──────  ──────", "  stop    7", "  —       true"]
    );
    let guessed = query::table("RETURN s.name AS n", &rows);
    assert_eq!(guessed[0], "  e.line  s.name");
    assert_eq!(query::table("RETURN x", &Vec::new()), ["  no rows"]);
}

#[test]
fn a_long_cell_is_cut_and_a_long_table_ends() {
    let long = "x".repeat(60);
    let cut = query::clip(&long);
    assert_eq!(cut.chars().count(), query::CELL);
    assert!(cut.ends_with('…'));
    assert_eq!(query::clip("short"), "short");
    let rows: Vec<Row> = (0..45).map(|i| row(vec![("n", Datum::Int(i))])).collect();
    let lines = query::table("RETURN n", &rows);
    assert_eq!(lines.len(), 2 + query::ROWS + 1);
    assert_eq!(lines.last().map(String::as_str), Some("  … 5 more"));
}

#[test]
fn rows_are_written_as_they_are() {
    let rows = vec![row(vec![
        ("a", Datum::List(vec![Datum::Int(-1), Datum::Str("s".into())])),
        ("b", Datum::Fields(vec![("k".into(), Datum::Bool(false))])),
    ])];
    assert_eq!(query::rows_json(&rows).write(), r#"[{"a":[-1,"s"],"b":{"k":false}}]"#);
    let stream = Stream::from_ndjson(FACTS);
    assert_eq!(
        query::foot(2, &stream, "0.01", "1.5"),
        "2 rows · loaded 3 nodes and 2 edges in 0.01s · query 1.5ms"
    );
}

// --- facts -------------------------------------------------------------------

#[test]
fn what_two_readers_said_is_said_once() {
    let twice = format!("{FACTS}{FACTS}");
    let mut stream = Stream::from_ndjson(&twice);
    assert_eq!((stream.nodes.len(), stream.edges.len()), (6, 4));
    stream.dedupe();
    assert_eq!((stream.nodes.len(), stream.edges.len()), (3, 2));
    stream.dedupe();
    assert_eq!((stream.nodes.len(), stream.edges.len()), (3, 2));
}

#[test]
fn an_edge_is_dropped_only_for_one_that_is_the_same() {
    let edge = |share: &str, line: u32| {
        format!(
            "{{\"t\":\"edge\",\"kind\":\"calls\",\"from\":\"sym:a\",\"to\":\"sym:b\",\"ev\":[{{\"file\":\
             \"a.rs\",\"line\":[{line},{line}],\"extractor\":\"rust\"}}],\"attrs\":{{\"share\":{share}}}}}\n"
        )
    };
    let lines = [
        edge("0.5", 1),
        edge("0.25", 1),
        edge("0.5", 1),
        edge("0.5", 2),
        edge("1", 1),
        edge("1.0", 1),
        edge("0.25", 1),
    ];
    let mut stream = Stream::from_ndjson(&lines.concat());
    assert_eq!(stream.edges.len(), 7);
    stream.dedupe();
    let kept: Vec<(u32, String)> =
        stream.edges.iter().map(|e| (e.ev[0].line[0], e.attrs[0].1.write())).collect();
    let held = |n: u32, s: &str| (n, s.to_string());
    assert_eq!(
        kept,
        [held(1, "0.5"), held(1, "0.25"), held(2, "0.5"), held(1, "1"), held(1, "1.0")]
    );
}

#[test]
fn a_fact_may_be_written_as_a_list() {
    let lines = [
        r#"["header","0.1","rust","here"]"#,
        r#"["node","pkg:a","package"]"#,
        r#"["node","pkg:b",{"package":null},{"name":"b"}]"#,
        r#"["edge","depends_on","pkg:a","pkg:b",[["Cargo.toml",[3,4],"rust"]]]"#,
        r#"["edge","depends_on","pkg:b","pkg:a"]"#,
        // Too short, too long, of no kind, and nothing.
        r#"["header","0.1","rust"]"#,
        r#"["node","pkg:c","package",{},1]"#,
        r#"["other","pkg:c","package"]"#,
        r#"[]"#,
    ];
    let stream = Stream::from_ndjson(&lines.join("\n"));
    assert_eq!((stream.schema.as_str(), stream.root.as_str()), ("0.1", "here"));
    let ids: Vec<&str> = stream.nodes.iter().map(|n| n.id.0.as_str()).collect();
    assert_eq!(ids, ["pkg:a", "pkg:b"]);
    assert_eq!(stream.nodes[1].attrs[0].1.as_str().map(String::as_str), Some("b"));
    assert_eq!(stream.edges.len(), 2);
    let ev = &stream.edges[0].ev[0];
    assert_eq!((ev.file.as_str(), ev.line), ("Cargo.toml", [3, 4]));
    assert!(stream.edges[1].ev.is_empty());
}

#[test]
fn a_fact_that_gives_a_field_twice_is_passed_over() {
    let read = |line: &str| {
        let stream = Stream::from_ndjson(line);
        stream.nodes.len() + stream.edges.len()
    };
    assert_eq!(read(r#"{"t":"node","id":"a","kind":"file","id":"a"}"#), 0);
    assert_eq!(read(r#"{"t":"node","t":"node","id":"a","kind":"file"}"#), 0);
    assert_eq!(read("{\"t\":\"node\",\"id\":\"a\",\"kind\":\"file\",\"\\u0069d\":\"a\"}"), 0);
    assert_eq!(read(r#"{"t":"node","id":"a","kind":{"file":null,"file":null}}"#), 0);
    let twice = r#"{"file":"a","line":[1,1],"extractor":"rust","file":"a"}"#;
    let edge = r#"{"t":"edge","kind":"calls","from":"a","to":"b","ev":[EV]}"#;
    assert_eq!(read(&edge.replace("EV", twice)), 0);
    assert_eq!(read(&edge.replace("EV", &twice.replace(",\"file\":\"a\"}", "}"))), 1);
    // What a fact does not know may come as often as it likes, and attributes
    // keep the last of a name in the place of the first.
    assert_eq!(read(r#"{"t":"node","id":"a","kind":"file","x":1,"x":2}"#), 1);
    let line = r#" { "t" : "node", "id":"a", "kind":"file",
        "attrs": {"n":{"x":1,"x":2},"m":[],"n":{"y":{},"y":3}} } "#;
    let stream = Stream::from_ndjson(&line.replace('\n', " "));
    let attrs: Vec<(&str, String)> =
        stream.nodes[0].attrs.iter().map(|(k, v)| (k.as_str(), v.write())).collect();
    assert_eq!(attrs, [("n", r#"{"y":3}"#.to_string()), ("m", "[]".to_string())]);
}

#[test]
fn what_is_said_keeps_every_key() {
    let text = " {\"a\" : [ 1 , {\"b\":\"x,}\"} , [] ],\t\"a\":-2,\"c\":{ },\"d\":true } ";
    let heard = said::read(text).expect("a value");
    let Json::Object(fields) = heard else { panic!("an object") };
    let told: Vec<(&str, String)> =
        fields.iter().map(|(k, v)| (k.as_str(), v.write())).collect();
    assert_eq!(
        told,
        [
            ("a", r#"[1,{"b":"x,}"},[]]"#.to_string()),
            ("a", "-2".to_string()),
            ("c", "{}".to_string()),
            ("d", "true".to_string()),
        ]
    );
    for text in ["0.5", "\"\"", "null", "[]", "[[[]]]", "{\"\":{\"\":\"\\\"\"}}"] {
        assert_eq!(said::read(text).expect("a value").write(), text);
    }
    assert!(said::read("{\"a\":1,}").is_err());
    assert!(said::read("").is_err());
}

#[test]
fn a_line_that_is_no_fact_is_passed_over() {
    let stream = Stream::from_ndjson("nonsense\n\n{\"t\":\"other\"}\n");
    assert_eq!((stream.nodes.len(), stream.edges.len()), (0, 0));
}

fn dataset(facts: &str) -> Json {
    let meta = Meta {
        repo: "r",
        branch: "main",
        remote: None,
        commits_url: None,
        analysed_ms: None,
        fetched_ms: None,
    };
    let empty = Json::parse("{}").unwrap();
    let none = Json::parse("[]").unwrap();
    view::dataset(&Stream::from_ndjson(facts), empty, none, &meta)
}

const EFFECTS: &str = r#"{"t":"node","id":"pkg:a","kind":"package","attrs":{"name":"a"}}
{"t":"node","id":"file:a.rs","kind":"file","attrs":{"path":"a.rs","lines":10}}
{"t":"node","id":"sym:a::f","kind":"symbol","attrs":{"name":"f","lang:kind":"fn","lines":3}}
{"t":"node","id":"cap:fs","kind":"capability","attrs":{"name":"fs"}}
{"t":"edge","kind":"contains","from":"pkg:a","to":"file:a.rs","ev":[]}
{"t":"edge","kind":"contains","from":"file:a.rs","to":"sym:a::f","ev":[]}
{"t":"edge","kind":"effect_fs","from":"sym:a::f","to":"cap:fs","ev":[{"file":"a.rs","line":[2,2],"extractor":"rust"}]}
{"t":"edge","kind":"effect_fs","from":"sym:a::f","to":"cap:fs","ev":[{"file":"a.rs","line":[3,3],"extractor":"rust"}]}
{"t":"edge","kind":"effect_fs","from":"sym:a::f","to":"cap:fs","ev":[]}
"#;

#[test]
fn an_effect_is_counted_where_it_happens_and_listed_where_it_can_be_seen() {
    let j = dataset(EFFECTS);
    let effects = j.get("effects").and_then(Json::as_list).expect("effects");
    assert_eq!(effects.len(), 2);
    let text = j.get("packages").expect("packages").write();
    assert!(text.contains(r#""fs":3"#) || text.contains(r#""effect_fs":3"#), "{text}");
}

// --- reading in pieces -------------------------------------------------------

fn found(constants: &[(&str, &str)], calls: &[(&str, &[&str])]) -> Shared {
    let mut out = Shared::default();
    for (name, held) in constants {
        out.constants.insert(name.to_string(), held.to_string());
    }
    for (name, list) in calls {
        out.calls.insert(name.to_string(), list.iter().map(|s| s.to_string()).collect());
    }
    out
}

#[test]
fn a_later_reader_wins_and_nothing_is_said_twice() {
    let mut merged = Shared::default();
    merged.merge(&found(&[("A", "one"), ("B", "two")], &[("f", &["g", "g", "h"])]));
    merged.merge(&found(&[("A", "three")], &[("f", &["h", "k"]), ("m", &["f"])]));
    assert_eq!(merged.constants.get("A").map(String::as_str), Some("three"));
    assert_eq!(merged.constants.get("B").map(String::as_str), Some("two"));
    assert_eq!(merged.calls.get("f").unwrap(), &["g", "h", "k"]);
    assert_eq!(merged.calls.get("m").unwrap(), &["f"]);
}

#[test]
fn it_does_not_matter_which_findings_are_merged_first() {
    let a = found(&[("A", "one")], &[("f", &["g", "h"])]);
    let b = found(&[("A", "two"), ("B", "two")], &[("f", &["h", "k"]), ("m", &["f"])]);
    let c = found(&[("B", "three")], &[("m", &["f", "n"])]);
    let merged = |first: &Shared, later: &Shared| {
        let mut out = first.copy();
        out.merge(later);
        out
    };
    let told = |s: &Shared| {
        let calls: Vec<String> =
            s.calls.names().iter().map(|n| format!("{n} {:?}", s.calls.get(n))).collect();
        let constants: Vec<String> =
            s.constants.names().iter().map(|n| format!("{n} {:?}", s.constants.get(n))).collect();
        (calls, constants)
    };
    assert_eq!(told(&merged(&merged(&a, &b), &c)), told(&merged(&a, &merged(&b, &c))));
    assert_eq!(told(&merged(&b, &b)), told(&b));
}

#[test]
fn variables_are_followed_through_calls_and_cut_short() {
    let mut s = found(&[], &[("top", &["mid"]), ("mid", &["leaf"]), ("alone", &["nothing"])]);
    let many: Vec<String> = (0..10).map(|i| format!("V{i}")).collect();
    s.reads_env.insert("leaf".to_string(), many.clone());
    s.resolve();
    assert_eq!(s.reads_env.get("leaf").unwrap(), &many);
    assert_eq!(s.reads_env.get("mid").unwrap(), &many[..8]);
    assert_eq!(s.reads_env.get("top").unwrap(), &many[..8]);
    assert!(s.reads_env.get("alone").is_none());
    assert!(s.truncated.contains("mid"));
    assert!(!s.truncated.contains("leaf"));
}

#[test]
fn a_chain_of_calls_is_followed_to_its_end() {
    let names: Vec<String> = (0..20).map(|i| format!("step{i}")).collect();
    let mut s = Shared::default();
    for pair in names.windows(2) {
        s.calls.insert(pair[0].clone(), vec![pair[1].clone()]);
    }
    s.reads_env.insert(names[19].clone(), vec!["HOME".to_string()]);
    s.resolve();
    for name in &names {
        assert_eq!(s.reads_env.get(name).unwrap(), &["HOME"], "{name}");
    }
}
