//! Reading workspaces: from source text to facts, scores, datasets and answers.

use cqx::config::Config;
use cqx::extract;
use cqx::facts::Stream;
use cqx::json::Json;
use cqx::manifest;
use cqx::mcp::{self, Ask};
use cqx::measure::Real;
use cqx::metrics::{Amount, Metrics};
use cqx::prepass::Shared;
use cqx::scan;
use cqx::schema::{Edge, EdgeKind, Fact};
use cqx::score::{self, Price};
use cqx::table::Table;
use cqx::vfs::Vfs;
use cqx::view::{self, Meta};
use cqx::writer::Writer;

fn vfs_of(files: &[(&str, &str)]) -> Vfs {
    let mut vfs = Vfs::new("test");
    for (path, content) in files {
        vfs.insert(path, content);
    }
    vfs
}

fn whole(files: &[(&str, &str)]) -> Stream {
    let vfs = vfs_of(files);
    let (out, _) = extract::run(&vfs).map_err(|e| e.message()).expect("extract");
    Stream::from_ndjson(&out.text())
}

/// The same, read by `shards` readers that share their manifests and split the
/// sources between them.
fn in_pieces(files: &[(&str, &str)], shards: usize) -> Stream {
    let manifests: Vec<(&str, &str)> =
        files.iter().filter(|(p, _)| p.ends_with("Cargo.toml")).copied().collect();
    let code: Vec<(&str, &str)> =
        files.iter().filter(|(p, _)| p.ends_with(".rs")).copied().collect();

    let mut slices: Vec<Vfs> = Vec::new();
    for shard in 0..shards {
        let mut held = manifests.clone();
        held.extend(code.iter().enumerate().filter(|(i, _)| i % shards == shard).map(|(_, f)| *f));
        slices.push(vfs_of(&held));
    }

    let all = vfs_of(files);
    let prepared: Vec<_> = slices
        .iter()
        .map(|vfs| {
            let metadata = manifest::read(&all).expect("manifests");
            extract::prepare_with(vfs, metadata)
        })
        .collect();

    let own: Vec<_> = prepared.iter().map(|one| one.gathered()).collect();
    let mut shared = Shared::default();
    for facts in &own {
        shared.merge(&facts.shared());
    }
    shared.resolve();

    let mut merged = Stream::from_ndjson("");
    for ((vfs, one), mut facts) in slices.iter().zip(&prepared).zip(own) {
        facts.adopt(shared.copy());
        let mut out = Writer::new();
        let _ = one.emit(vfs, &facts, &mut out);
        let part = Stream::from_ndjson(&out.text());
        merged.nodes.extend(part.nodes);
        merged.edges.extend(part.edges);
    }
    merged.dedupe();
    merged
}

fn facts(source: &str) -> Stream {
    whole(&[
        ("Cargo.toml", "[package]\nname = \"subject\"\nversion = \"0.1.0\"\n"),
        ("src/lib.rs", source),
    ])
}

fn of_kind(stream: &Stream, kind: EdgeKind) -> Vec<&Edge> {
    stream.edges.iter().filter(|e| e.kind == kind).collect()
}

fn edges(stream: &Stream, kind: EdgeKind) -> Vec<(String, String)> {
    of_kind(stream, kind).iter().map(|e| (e.from.0.clone(), e.to.0.clone())).collect()
}

fn attr<'a>(edge: &'a Edge, key: &str) -> Option<&'a Json> {
    edge.attrs.iter().find(|(k, _)| k == key).map(|(_, v)| v)
}

fn attr_text<'a>(edge: &'a Edge, key: &str) -> Option<&'a str> {
    match attr(edge, key) {
        Some(Json::Str(s)) => Some(s),
        _ => None,
    }
}

// --- the shapes a policy asks about ------------------------------------------

#[test]
fn a_call_is_recorded_by_name_however_it_is_written() {
    let stream = facts(
        r#"
pub fn enforce_read(_p: &str) -> Result<(), String> { Ok(()) }

pub struct Guard;
impl Guard {
    pub fn check(&self) {}
}

pub fn checked(g: &Guard) {
    let _ = enforce_read("/tmp");
    g.check();
}
"#,
    );
    let called: Vec<String> =
        edges(&stream, EdgeKind::Calls).into_iter().map(|(_, to)| to).collect();
    assert!(
        called.iter().any(|t| t == "ext:enforce_read"),
        "a plain call should be recorded: {called:?}"
    );
    assert!(
        called.iter().any(|t| t == "ext:check"),
        "a method call should be recorded too: {called:?}"
    );
}

#[test]
fn a_check_whose_answer_is_thrown_away_is_recorded() {
    let stream = facts(
        r#"
pub fn enforce_read(_p: &str) -> Result<(), String> { Err("denied".into()) }

pub fn op_resolve(path: &str) -> String {
    let _ = enforce_read(path);
    path.to_string()
}
"#,
    );
    let discarded = edges(&stream, EdgeKind::Discards);
    assert!(
        discarded.iter().any(|(from, to)| from.contains("op_resolve") && to == "ext:enforce_read"),
        "the discarded check should be recorded: {discarded:?}"
    );
}

#[test]
fn a_dispatch_with_an_empty_fallback_is_recorded() {
    let stream = facts(
        r#"
pub fn enforce(_a: &str) {}

pub fn dispatch(action: &str) {
    match action {
        "read" => enforce("read"),
        "write" => enforce("write"),
        _ => {}
    }
}
"#,
    );
    let arms = of_kind(&stream, EdgeKind::DefaultArm);
    assert_eq!(arms.len(), 1, "one match, one catch-all");
    assert!(matches!(attr(arms[0], "arms"), Some(Json::Whole(3))));
    assert!(
        matches!(attr(arms[0], "empty"), Some(Json::Bool(true))),
        "the fallback does nothing and should say so"
    );
}

#[test]
fn a_fallback_that_acts_is_not_reported_as_empty() {
    let stream = facts(
        r#"
pub fn enforce(_a: &str) {}
pub fn refuse() {}

pub fn dispatch(action: &str) {
    match action {
        "read" => enforce("read"),
        _ => refuse(),
    }
}
"#,
    );
    let arms = of_kind(&stream, EdgeKind::DefaultArm);
    assert_eq!(arms.len(), 1);
    assert!(matches!(attr(arms[0], "empty"), Some(Json::Bool(false))));
}

#[test]
fn what_is_handed_to_a_subprocess_is_recorded() {
    let stream = facts(
        r#"
use std::process::Command;

pub fn run_shell(script: &str) {
    let _ = Command::new("/bin/zsh").arg("-lc").arg(script).status();
}

pub fn run_child() {
    let _ = Command::new("deka").arg("--allow-all").status();
}
"#,
    );
    let args = of_kind(&stream, EdgeKind::SpawnArg);
    let literals: Vec<&str> = args.iter().filter_map(|e| attr_text(e, "value")).collect();
    assert!(literals.contains(&"-lc"), "a literal argument: {literals:?}");
    assert!(
        literals.contains(&"--allow-all"),
        "a permission-granting literal is exactly what a rule looks for: {literals:?}"
    );
    assert!(
        args.iter().any(|e| attr_text(e, "via") == Some("unresolved")),
        "the argument that came from a parameter cannot be resolved, and saying so is the point"
    );
}

#[test]
fn json_built_by_interpolation_is_recorded() {
    let stream = facts(
        r#"
pub fn reply(shop: &str) -> String {
    format!("{{\"ok\":true,\"shop\":\"{}\"}}", shop)
}

pub fn greeting(name: &str) -> String {
    format!("hello {}", name)
}
"#,
    );
    let built = edges(&stream, EdgeKind::Interpolates);
    assert_eq!(built.len(), 1, "the hand-built object, and not the greeting: {built:?}");
    assert!(built[0].0.contains("reply"));
}

#[test]
fn an_effect_inside_a_macro_is_seen() {
    let stream = facts(
        r#"
pub fn report() {
    println!("editor is {}", std::env::var("EDITOR").unwrap_or_default());
}
"#,
    );
    let read = edges(&stream, EdgeKind::ReadsEnv);
    assert!(
        read.iter().any(|(_, to)| to == "env:EDITOR"),
        "the variable read inside println! should be recorded: {read:?}"
    );
}

#[test]
fn a_quoted_template_is_left_alone() {
    let stream = facts(
        r#"
pub fn generate() -> String {
    let body = quote::quote! { std::process::exit(1) };
    body.to_string()
}
"#,
    );
    let exits = edges(&stream, EdgeKind::EffectExec);
    assert!(exits.is_empty(), "a template is not a call: {exits:?}");
}

// --- reading in pieces -------------------------------------------------------

fn workspace() -> Vec<(&'static str, &'static str)> {
    vec![
        ("Cargo.toml", "[workspace]\nmembers = [\"tool\", \"runner\", \"extra\"]\n"),
        ("tool/Cargo.toml", "[package]\nname = \"tool\"\nversion = \"0.1.0\"\n"),
        (
            "tool/src/lib.rs",
            r#"
pub const HELPER: &str = "dsc";
pub fn name() -> &'static str { "dsc" }
"#,
        ),
        (
            "runner/Cargo.toml",
            "[package]\nname = \"runner\"\nversion = \"0.1.0\"\n\n[dependencies]\ntool = { path = \"../tool\" }\n",
        ),
        (
            "runner/src/lib.rs",
            r#"
use std::process::Command;
pub fn launch() {
    let _ = Command::new(tool::name()).status();
}
pub fn from_env() {
    let _ = Command::new(std::env::var("EDITOR").unwrap()).status();
}
"#,
        ),
        ("extra/Cargo.toml", "[package]\nname = \"extra\"\nversion = \"0.1.0\"\n"),
        (
            "extra/src/lib.rs",
            "pub fn plain(a: &str, b: &str, c: &str) { let _ = (a, b, c); }\n",
        ),
    ]
}

fn shape(stream: &Stream) -> (usize, usize, Vec<String>) {
    let mut ids: Vec<String> = stream.nodes.iter().map(|n| n.id.0.clone()).collect();
    ids.sort();
    (stream.nodes.len(), stream.edges.len(), ids)
}

#[test]
fn a_workspace_read_in_pieces_holds_what_it_held_whole() {
    let files = workspace();
    let once = whole(&files);
    for shards in [2, 3, 5] {
        let split = in_pieces(&files, shards);
        let (n0, e0, ids0) = shape(&once);
        let (n1, e1, ids1) = shape(&split);
        assert_eq!(ids0, ids1, "{shards} readers found different nodes");
        assert_eq!(n0, n1, "{shards} readers: node count");
        assert_eq!(e0, e1, "{shards} readers: edge count");
    }
}

#[test]
fn provenance_across_a_crate_boundary_survives_the_split() {
    let files = workspace();
    let spawn_targets = |stream: &Stream| {
        let mut found: Vec<String> = of_kind(stream, EdgeKind::Spawns)
            .iter()
            .map(|e| format!("{} via {}", e.to.0, attr_text(e, "via").unwrap_or("-")))
            .collect();
        found.sort();
        found
    };
    let once = spawn_targets(&whole(&files));
    assert!(!once.is_empty(), "the workspace should spawn something");
    for shards in [2, 3, 5] {
        assert_eq!(once, spawn_targets(&in_pieces(&files, shards)), "{shards} readers");
    }
}

#[test]
fn what_is_written_reads_back() {
    for files in [workspace(), basic(), hard()] {
        let vfs = vfs_of(&files);
        let (out, stats) = extract::run(&vfs).map_err(|e| e.message()).expect("extract");
        let stream = Stream::from_ndjson(&out.text());
        assert_eq!(stream.root, "test");
        assert_eq!((stream.nodes.len(), stream.edges.len()), (stats.nodes, stats.edges));
        let mut again = Writer::new();
        again.fact(&Fact::header("rust", "test"));
        stream.nodes.iter().for_each(|n| again.node(n.copy()));
        stream.edges.iter().for_each(|e| again.edge(e.copy()));
        let sorted = |text: String| {
            let mut lines: Vec<String> = text.lines().map(str::to_string).collect();
            lines.sort();
            lines
        };
        assert_eq!(sorted(again.text()), sorted(out.text()));
    }
}

#[test]
fn no_edge_leads_nowhere() {
    for files in [workspace(), basic(), hard()] {
        let stream = whole(&files);
        let ids: Vec<&str> = stream.nodes.iter().map(|n| n.id.0.as_str()).collect();
        assert!(!stream.edges.is_empty());
        for e in &stream.edges {
            assert!(ids.contains(&e.from.0.as_str()), "{:?}", e.from);
            assert!(ids.contains(&e.to.0.as_str()), "{:?}", e.to);
        }
        assert_eq!(cqx::query::load(&stream).dangling, 0);
    }
}

#[test]
fn every_edge_can_be_seen_in_the_source() {
    for files in [workspace(), basic(), hard()] {
        let stream = whole(&files);
        for e in &stream.edges {
            assert!(!e.ev.is_empty(), "{e:?}");
            for ev in &e.ev {
                let source = files.iter().find(|(path, _)| *path == ev.file);
                let (_, held) = source.unwrap_or_else(|| panic!("{e:?}"));
                let last = held.lines().count().max(1) as u32;
                assert!(1 <= ev.line[0] && ev.line[0] <= ev.line[1], "{e:?}");
                assert!(ev.line[1] <= last, "{e:?}");
            }
        }
    }
}

#[test]
fn what_holds_a_thing_is_seen_where_it_is_declared() {
    let stream = whole(&[
        ("Cargo.toml", "[package]\nname = \"subject\"\nversion = \"0.1.0\"\n"),
        ("src/lib.rs", "pub struct Kept {\n    a: u32,\n}\n"),
    ]);
    let held = |to: &str| -> (String, [u32; 2]) {
        let edge = of_kind(&stream, EdgeKind::Contains)
            .into_iter()
            .find(|e| e.to.0 == to)
            .unwrap_or_else(|| panic!("{to}"));
        (edge.ev[0].file.clone(), edge.ev[0].line)
    };
    let file = stream.nodes.iter().find(|n| n.id.0.starts_with("file:")).expect("a file");
    let kept = stream.nodes.iter().find(|n| n.id.0.ends_with("::Kept")).expect("a type");
    assert_eq!(held(&file.id.0), ("src/lib.rs".to_string(), [1, 3]));
    assert_eq!(held(&kept.id.0), ("src/lib.rs".to_string(), [1, 3]));
}

#[test]
fn a_stream_begins_with_its_header() {
    let vfs = vfs_of(&basic());
    let (out, _) = extract::run(&vfs).map_err(|e| e.message()).expect("extract");
    let text = out.text();
    let heads: Vec<usize> = text
        .lines()
        .enumerate()
        .filter(|(_, line)| line.contains("\"t\":\"header\""))
        .map(|(i, _)| i)
        .collect();
    assert_eq!(heads, [0]);
    let stream = Stream::from_ndjson(&text);
    assert_eq!(stream.schema, cqx::schema::SCHEMA_VERSION);
    assert_eq!(stream.root, "test");
}

fn members(patterns: &str, dirs: &[&str]) -> Vec<String> {
    let mut vfs = Vfs::new("test");
    vfs.insert("Cargo.toml", &format!("[workspace]\nmembers = [{patterns}]\n"));
    for dir in dirs {
        let name = dir.replace('/', "-");
        vfs.insert(&format!("{dir}/Cargo.toml"), &format!("[package]\nname = \"{name}\"\n"));
        vfs.insert(&format!("{dir}/src/lib.rs"), "");
    }
    let mut names: Vec<String> =
        manifest::read(&vfs).expect("manifests").packages.into_iter().map(|p| p.name).collect();
    names.sort();
    names
}

#[test]
fn members_are_found_by_pattern() {
    let dirs = ["app", "crates/foo-a", "crates/foo-b", "crates/bar", "crates/deep/inner"];
    assert_eq!(members("\"*\"", &dirs), ["app"]);
    assert_eq!(members("\"crates/*\"", &dirs), ["crates-bar", "crates-foo-a", "crates-foo-b"]);
    assert_eq!(members("\"crates/foo-*\"", &dirs), ["crates-foo-a", "crates-foo-b"]);
    assert_eq!(members("\"crates/foo-?\"", &dirs), ["crates-foo-a", "crates-foo-b"]);
    assert_eq!(members("\"crates/*/inner\"", &dirs), ["crates-deep-inner"]);
    assert_eq!(members("\"*/bar\", \"app\"", &dirs), ["app", "crates-bar"]);
    assert_eq!(members("\"./app/\"", &dirs), ["app"]);
    assert_eq!(
        members("\"crates/**\"", &dirs),
        ["crates-bar", "crates-deep-inner", "crates-foo-a", "crates-foo-b"]
    );
    assert_eq!(members("\"crates/*\"]\nexclude = [\"crates/bar/\"", &dirs).len(), 2);
    assert_eq!(
        members("\"crates/*\", \"crates/bar\"]\nexclude = [\"crates\"", &dirs),
        ["crates-bar"]
    );
}

#[test]
fn a_path_that_is_needed_makes_a_member() {
    let vfs = vfs_of(&[
        (
            "Cargo.toml",
            "[workspace]\nmembers = [\"app\"]\nexclude = [\"left\"]\n\n[workspace.dependencies]\n\
             shared = { path = \"shared\" }\nleft = { path = \"left\" }\n",
        ),
        (
            "app/Cargo.toml",
            "[package]\nname = \"app\"\n\n[dependencies]\nnear = { path = \"../near\" }\n\
             beyond = { path = \"../../beyond\" }\n\n\
             [target.'cfg(unix)'.dependencies]\nunix = { path = \"../unix\" }\n",
        ),
        ("near/Cargo.toml", "[package]\nname = \"near\"\nversion = \"1.2.3\"\n"),
        ("unix/Cargo.toml", "[package]\nname = \"unix\"\n"),
        ("shared/Cargo.toml", "[package]\nname = \"shared\"\n"),
        ("left/Cargo.toml", "[package]\nname = \"left\"\n"),
        ("beyond/Cargo.toml", "[package]\nname = \"beyond\"\n"),
    ]);
    let mut found: Vec<(String, String)> = manifest::read(&vfs)
        .expect("manifests")
        .packages
        .into_iter()
        .map(|p| (p.name, p.version))
        .collect();
    found.sort();
    let is = |name: &str, version: &str| (name.to_string(), version.to_string());
    assert_eq!(
        found,
        [is("app", "0.0.0"), is("near", "1.2.3"), is("shared", "0.0.0"), is("unix", "0.0.0")]
    );
}

#[test]
fn a_declared_target_is_found_where_one_would_be_discovered() {
    let vfs = vfs_of(&[
        (
            "Cargo.toml",
            "[package]\nname = \"tool\"\nautobins = false\nautotests = false\n\n[[bin]]\n\
             name = \"tool\"\n\n[[bin]]\nname = \"other\"\n\n[[test]]\nname = \"all\"\n",
        ),
        ("src/main.rs", "fn main() {}\n"),
        ("src/bin/other/main.rs", "fn main() {}\n"),
        ("src/bin/third.rs", "fn main() {}\n"),
        ("tests/all.rs", ""),
        ("tests/more.rs", ""),
    ]);
    let packages = manifest::read(&vfs).expect("manifests").packages;
    let paths: Vec<&str> = packages[0].targets.iter().map(|t| t.src_path.as_str()).collect();
    assert_eq!(paths, ["src/main.rs", "src/bin/other/main.rs", "tests/all.rs"]);
}

#[test]
fn methods_of_two_types_have_ids_of_their_own() {
    let stream = facts(
        "struct A;\nstruct B;\nimpl A { fn f(&self) {} }\nimpl B { fn f(&self) {} }\n\
         impl Show for &A { fn f(&self) {} }\nimpl Show for [B] { fn f(&self) {} }\n\
         impl Show for Vec<A> { fn f(&self) {} }\nimpl Show for Vec<B> { fn f(&self) {} }\n\
         impl Show for a::T { fn f(&self) {} }\nimpl Show for b::T { fn f(&self) {} }\n",
    );
    let mut ids: Vec<&str> = stream
        .nodes
        .iter()
        .map(|n| n.id.0.as_str())
        .filter(|id| id.ends_with("::f"))
        .collect();
    ids.sort();
    assert_eq!(
        ids,
        [
            "sym:subject::&A::f",
            "sym:subject::A::f",
            "sym:subject::B::f",
            "sym:subject::Vec<A>::f",
            "sym:subject::Vec<B>::f",
            "sym:subject::[B]::f",
            "sym:subject::a::T::f",
            "sym:subject::b::T::f",
        ]
    );
}

/// What one reader finds in all the files, and what readers of one file each
/// find together.
fn found_both_ways(files: &[(&str, &str)]) -> (Shared, Shared) {
    let manifest = ("Cargo.toml", "[package]\nname = \"subject\"\nversion = \"0.1.0\"\n");
    let mut all = vec![manifest];
    all.extend(files);
    let gathered = |held: &[(&str, &str)]| {
        let metadata = manifest::read(&vfs_of(&all)).expect("manifests");
        extract::prepare_with(&vfs_of(held), metadata).gathered().shared()
    };
    let mut together = Shared::default();
    for file in files {
        together.merge(&gathered(&[manifest, *file]));
    }
    (gathered(&all), together)
}

#[test]
fn one_reader_finds_what_many_find_together() {
    let (one, many) = found_both_ways(&[
        ("src/a.rs", "fn f() { g(); g(); h(); }\nconst NAME: &str = \"a\";\n"),
        ("src/b.rs", "fn f() { g(); k(); }\nconst NAME: &str = \"b\";\n"),
        ("src/lib.rs", "mod a;\nmod b;\n"),
    ]);
    assert_eq!(one.calls.get("f").unwrap(), &["g", "h", "k"]);
    assert_eq!(many.calls.get("f").unwrap(), &["g", "h", "k"]);
    assert_eq!(one.constants.get("NAME"), many.constants.get("NAME"));
    assert_eq!(one.calls.names(), many.calls.names());
    assert_eq!(one.defined.names(), many.defined.names());
}

#[test]
fn everything_that_stands_somewhere_is_on_one_spine() {
    let spine = ["pkg:", "bin:", "dir:", "file:", "sym:"];
    for files in [workspace(), basic(), hard()] {
        let stream = whole(&files);
        for (i, node) in stream.nodes.iter().enumerate() {
            let id = &node.id.0;
            if id.starts_with("pkg:") || !spine.iter().any(|head| id.starts_with(head)) {
                continue;
            }
            assert!(
                of_kind(&stream, EdgeKind::Contains).iter().any(|e| e.to.0 == *id
                    && spine.iter().any(|head| e.from.0.starts_with(head))
                    && stream.nodes[..i].iter().any(|above| above.id.0 == e.from.0)),
                "{id} is held by nothing that came before it"
            );
        }
    }
}

#[test]
fn ids_survive_a_move_down_the_file() {
    let body = "pub fn launch() { let _ = std::fs::read(\"a\"); }\npub struct Kept { a: u32 }\n";
    let moved = format!("\n\n// a comment\n\n{body}");
    let before = facts(body);
    let after = facts(&moved);
    assert_eq!(shape(&before), shape(&after));
    let ends = |s: &Stream| -> Vec<(String, String)> {
        s.edges.iter().map(|e| (e.from.0.clone(), e.to.0.clone())).collect()
    };
    assert_eq!(ends(&before), ends(&after));
}

// --- scores ------------------------------------------------------------------

fn number(x: f64) -> Real {
    Real { bits: x.to_bits(), text: x.to_string() }
}

fn value(r: &Real) -> f64 {
    f64::from_bits(r.bits)
}

fn price(a: &score::Applied, lines: u64) -> Price {
    let value_of = match a.amount {
        Amount::Count(n) => n as f64 / (lines as f64 / 10_000.0).max(0.05),
        Amount::Share { part, whole } => part as f64 / whole.max(1) as f64,
    };
    let (free, full, weight) = (value(&a.free), value(&a.full), value(&a.weight));
    let taken = if value_of <= free {
        0.0
    } else if value_of >= full {
        weight
    } else {
        let fraction = (value_of - free) / (full - free);
        ((weight * fraction * 10.0).round() / 10.0).min(weight)
    };
    Price {
        value: number(value_of),
        rounded: number((value_of * 1000.0).round() / 1000.0),
        value_shown: format!("{value_of:.2}"),
        taken: number(taken),
        taken_shown: format!("{taken:.1}"),
    }
}

fn report_of(files: &[(&str, &str)]) -> Json {
    let stream = whole(files);
    let config = Config::resolve(None, &Table::new()).expect("defaults");
    let metrics = Metrics::compute(&stream, &config.exclude);
    let plan = score::plan(&config, &metrics);
    let prices: Vec<Price> = plan.iter().map(|a| price(a, metrics.lines)).collect();
    let (losses, deductions) = score::score(&config, &metrics, &prices);
    let mut scores: Table<u32> = Table::new();
    for i in 0..losses.len() {
        let lost: f64 = losses.value_at(i).iter().map(value).sum();
        scores.insert(losses.name_at(i).clone(), (100.0 - lost).max(0.0).round() as u32);
    }
    let report = score::report_json(&config, &scores, &deductions, &metrics);
    scan::with_cost(&report, files.len(), metrics.lines, 3)
}

fn basic() -> Vec<(&'static str, &'static str)> {
    vec![
        (
            "Cargo.toml",
            "[workspace]\nmembers = [\"crates/app\", \"crates/engine\", \"crates/util\"]\n",
        ),
        (
            "crates/app/Cargo.toml",
            "[package]\nname = \"app\"\nversion = \"0.1.0\"\n\n[dependencies]\nengine = { path = \"../engine\" }\nutil = { path = \"../util\" }\n",
        ),
        (
            "crates/engine/Cargo.toml",
            "[package]\nname = \"engine\"\nversion = \"0.1.0\"\n\n[dependencies]\nutil = { path = \"../util\" }\n",
        ),
        ("crates/util/Cargo.toml", "[package]\nname = \"util\"\nversion = \"0.1.0\"\n"),
        (
            "crates/app/src/config.rs",
            r#"use std::env;

pub struct Config {
    pub verbose: bool,
}

impl Config {
    pub fn load() -> Config {
        Config {
            verbose: env::var("APP_VERBOSE").is_ok(),
        }
    }
}
"#,
        ),
        (
            "crates/app/src/main.rs",
            r#"use engine::Pipeline;
use std::process::Command;
use util::report;

mod config;

fn main() {
    let mode = std::env::var("APP_MODE").unwrap_or_else(|_| "dev".to_string());
    let pipeline = Pipeline::new(&mode);
    pipeline.run();
    compile_with_dsc("main.ds");
    report("done");
}

/// Planted: the one process boundary in this sample.
fn compile_with_dsc(entry: &str) {
    let _ = Command::new("dsc").arg("build").arg(entry).status();
}
"#,
        ),
        (
            "crates/engine/src/cache.rs",
            r#"/// Planted: an unsafe block in a crate that has no business having one.
pub fn fast_len(bytes: &[u8]) -> usize {
    unsafe { std::slice::from_raw_parts(bytes.as_ptr(), bytes.len()).len() }
}

pub static mut HITS: u64 = 0;
"#,
        ),
        (
            "crates/engine/src/lib.rs",
            r#"use std::fs;
use util::report;

pub mod cache;

pub struct Pipeline {
    mode: String,
}

impl Pipeline {
    pub fn new(mode: &str) -> Pipeline {
        Pipeline {
            mode: mode.to_string(),
        }
    }

    pub fn run(&self) {
        let source = fs::read_to_string("input.txt").unwrap_or_default();
        fs::write("output.txt", source.to_uppercase()).ok();
        report(&self.mode);
    }
}
"#,
        ),
        (
            "crates/util/src/lib.rs",
            r#"use std::net::TcpStream;

pub fn report(message: &str) {
    println!("{message}");
}

/// Planted: a library reaching the network.
pub fn ping(host: &str) -> bool {
    TcpStream::connect(host).is_ok()
}

/// Planted: a library that exits the process, stealing the decision from its
/// caller. This is the shape that should surface on its own.
pub fn give_up(code: i32) -> ! {
    std::process::exit(code)
}
"#,
        ),
    ]
}

fn hard() -> Vec<(&'static str, &'static str)> {
    vec![
        ("Cargo.toml", "[workspace]\nmembers = [\"crates/hard\"]\n"),
        ("crates/hard/Cargo.toml", "[package]\nname = \"hard\"\nversion = \"0.1.0\"\n"),
        (
            "crates/hard/src/lib.rs",
            "pub mod h1_import_alias;\npub mod h2_type_alias;\npub mod h3_const;\npub mod h4_macro;\npub mod h7_one_hop;\npub mod h8_env_provenance;\n",
        ),
        (
            "crates/hard/src/h1_import_alias.rs",
            r#"use std::process::Command as Proc;

pub fn sync_files() {
    let _ = Proc::new("rsync").arg("-a").status();
}
"#,
        ),
        (
            "crates/hard/src/h2_type_alias.rs",
            r#"type Cmd = std::process::Command;

pub fn copy_remote() {
    let _ = Cmd::new("scp").arg("host:/f").status();
}
"#,
        ),
        (
            "crates/hard/src/h3_const.rs",
            r#"use std::process::Command;

const SHELL: &str = "/bin/bash";

pub fn run_shell(script: &str) {
    let _ = Command::new(SHELL).arg("-c").arg(script).status();
}
"#,
        ),
        (
            "crates/hard/src/h4_macro.rs",
            r#"macro_rules! run_tool {
    ($tool:expr) => {
        std::process::Command::new($tool).status()
    };
}

pub fn fetch_url() {
    let _ = run_tool!("curl");
}
"#,
        ),
        (
            "crates/hard/src/h7_one_hop.rs",
            r#"use std::process::Command;

fn encoder_binary() -> &'static str {
    "ffmpeg"
}

pub fn encode(input: &str) {
    let _ = Command::new(encoder_binary()).arg(input).status();
}
"#,
        ),
        (
            "crates/hard/src/h8_env_provenance.rs",
            r#"use std::path::PathBuf;
use std::process::Command;

fn tool_path() -> Option<PathBuf> {
    match std::env::var("HARD_TOOL") {
        Ok(path) => Some(PathBuf::from(path)),
        Err(_) => None,
    }
}

pub fn run_tool(arg: &str) -> bool {
    let tool = match tool_path() {
        Some(tool) => tool,
        None => return false,
    };
    Command::new(tool).arg(arg).status().is_ok()
}
"#,
        ),
    ]
}

/// What is planted in the basic workspace is found, and no more.
#[test]
fn the_planted_facts_are_found() {
    let stream = whole(&basic());
    assert_eq!(
        edges(&stream, EdgeKind::Spawns),
        vec![("sym:app::compile_with_dsc".to_string(), "proc:dsc".to_string())]
    );
    let mut read: Vec<String> =
        edges(&stream, EdgeKind::ReadsEnv).into_iter().map(|(_, to)| to).collect();
    read.sort();
    assert_eq!(read, ["env:APP_MODE", "env:APP_VERBOSE"]);
    let mut forms: Vec<&str> = of_kind(&stream, EdgeKind::UnsafeAt)
        .into_iter()
        .filter_map(|e| attr_text(e, "form"))
        .collect();
    forms.sort();
    assert_eq!(forms, ["static mut", "unsafe block"]);
    assert_eq!(of_kind(&stream, EdgeKind::EffectFs).len(), 2);
    assert_eq!(of_kind(&stream, EdgeKind::EffectNet).len(), 1);
    assert_eq!(
        edges(&stream, EdgeKind::EffectExec),
        vec![("sym:util::give_up".to_string(), "cap:exec".to_string())]
    );
}

/// A target is followed through a renamed import, a type alias, a constant, a
/// function that returns a literal, and one that reads the environment.
#[test]
fn a_spawn_target_is_followed_one_step() {
    let stream = whole(&hard());
    let mut found: Vec<String> = of_kind(&stream, EdgeKind::Spawns)
        .iter()
        .map(|e| {
            format!(
                "{} {} {}",
                e.to.0,
                attr_text(e, "via").unwrap_or("-"),
                attr_text(e, "env_var").unwrap_or("-")
            )
        })
        .collect();
    found.sort();
    assert_eq!(
        found,
        [
            "proc:/bin/bash const -",
            "proc:<dynamic> env HARD_TOOL",
            "proc:ffmpeg fn -",
            "proc:rsync - -",
            "proc:scp - -",
        ]
    );
}

#[test]
fn a_body_that_was_copied_is_found_once() {
    let body = "let mut total = 0; for value in values { total += value; total -= 1; total *= 2; } for value in values { total += value; total -= 1; total *= 2; } for value in values { total += value; total -= 1; total *= 2; } total";
    let source = format!(
        "pub fn one(values: &[i64]) -> i64 {{ {body} }}\npub fn two(values: &[i64]) -> i64 {{ {body} }}\n"
    );
    let stream = facts(&source);
    let metrics = Metrics::compute(&stream, &Vec::new());
    let copies = metrics.get("duplicated-bodies").expect("measured");
    assert_eq!(copies.findings.len(), 1);
    assert_eq!(copies.findings[0].what, "copy of subject::one");
    assert_eq!(copies.findings[0].file, "subject::two");
    assert!(matches!(copies.amount, Amount::Count(1)));
    assert_eq!(metrics.lines, 2);
}

#[test]
fn what_the_rules_measure_is_counted() {
    let stream = whole(&hard());
    let metrics = Metrics::compute(&stream, &Vec::new());
    let shells = metrics.get("shell-invocation").expect("measured");
    assert_eq!(shells.findings.len(), 1);
    assert_eq!(shells.findings[0].what, "spawns /bin/bash");
    assert_eq!(shells.findings[0].file, "crates/hard/src/h3_const.rs");
    assert_eq!(shells.findings[0].line, 6);
    let env = metrics.get("env-controlled-spawn").expect("measured");
    assert_eq!(env.findings.len(), 1);
    assert_eq!(env.findings[0].what, "spawn target from $HARD_TOOL");
    let unproven = metrics.get("unproven-spawn-targets").expect("measured");
    assert!(matches!(unproven.amount, Amount::Share { part: 3, whole: 6 }));
    let bare = metrics.get("bare-string-params").expect("measured");
    assert!(matches!(bare.amount, Amount::Share { part: 3, whole: 3 }));
    assert!(metrics.get("oversized-files").is_none());
}

/// A library that ends the process is a finding; a program that does is not.
#[test]
fn only_a_library_may_not_exit() {
    let exits = |main: &str| {
        let stream = whole(&[
            ("Cargo.toml", "[package]\nname = \"subject\"\nversion = \"0.1.0\"\n"),
            (main, "pub fn stop() { std::process::exit(1) }\nfn main() {}\n"),
        ]);
        Metrics::compute(&stream, &Vec::new())
            .get("exit-in-library")
            .expect("measured")
            .findings
            .len()
    };
    assert_eq!(exits("src/lib.rs"), 1);
    assert_eq!(exits("src/main.rs"), 0);
}

#[test]
fn excluded_lines_are_not_counted() {
    let stream = whole(&basic());
    let all = Metrics::compute(&stream, &Vec::new()).lines;
    let some = Metrics::compute(&stream, &vec!["crates/util/".to_string()]).lines;
    assert_eq!(all - some, 16);
}

// --- asking ------------------------------------------------------------------

fn parse(s: &str) -> Json {
    Json::parse(s).expect("json")
}

/// A value inside a value.
fn at<'a>(j: &'a Json, path: &[&str]) -> &'a Json {
    let mut here = j;
    for key in path {
        here = match here {
            Json::List(items) => &items[key.parse::<usize>().expect("a position")],
            other => other.get(key).unwrap_or(&Json::Null),
        };
    }
    here
}

fn string<'a>(j: &'a Json, path: &[&str]) -> &'a str {
    match at(j, path) {
        Json::Str(s) => s,
        _ => "",
    }
}

fn rpc(line: &str, files: &[(&str, &str)]) -> Json {
    let reply = match mcp::handle_line(line) {
        Ask::Nothing => panic!("expected a reply"),
        Ask::Reply(reply) => reply,
        Ask::Scan(id, call) => mcp::answer(&id, &call.tool, &Ok(report_of(files))),
    };
    assert!(!reply.contains('\n'));
    parse(&reply)
}

fn call(name: &str, arguments: &str, files: &[(&str, &str)]) -> Json {
    rpc(
        &format!(
            "{{\"jsonrpc\":\"2.0\",\"id\":1,\"method\":\"tools/call\",\"params\":{{\"name\":\"{name}\",\"arguments\":{arguments}}}}}"
        ),
        files,
    )
}

#[test]
fn score_on_fixtures_basic_returns_scores() {
    let reply = call("score", "{\"path\":\"basic\"}", &basic());
    assert!(reply.get("error").is_none());
    assert!(!matches!(at(&reply, &["result", "isError"]), Json::Bool(true)));
    let body = parse(string(&reply, &["result", "content", "0", "text"]));
    let scores = at(&body, &["scores"]).as_object().expect("scores");
    assert!(!scores.is_empty());
    assert!(scores.iter().all(|(_, v)| matches!(v, Json::Whole(_))));
    assert!(matches!(at(&body, &["scan", "files"]), Json::Whole(n) if *n > 0));
    assert!(at(&body, &["scan"]).get("lines").is_some());
    assert!(at(&body, &["scan"]).get("ms").is_some());
    assert!(at(&body, &["scan"]).get("cqx").is_some());
}

#[test]
fn explain_unknown_rule_is_a_tool_error_not_a_protocol_error() {
    let reply = call("explain", "{\"path\":\"basic\",\"rule\":\"no-such-rule\"}", &basic());
    assert!(
        reply.get("error").is_none(),
        "a missing rule is a tool failure, not a JSON-RPC error"
    );
    assert!(matches!(at(&reply, &["result", "isError"]), Json::Bool(true)));
    let text = string(&reply, &["result", "content", "0", "text"]);
    assert!(
        text.contains("no-such-rule"),
        "the sentence should name the rule the agent asked about: {text}"
    );
    assert!(
        text.contains(' ') && !text.trim_start().starts_with('{'),
        "a person should be able to read this, not parse it: {text}"
    );
}

#[test]
fn findings_file_filter_returns_only_that_file() {
    let reply =
        call("findings", "{\"path\":\"hard\",\"file\":\"crates/hard/src/h3_const.rs\"}", &hard());
    assert!(reply.get("error").is_none());
    let body = parse(string(&reply, &["result", "content", "0", "text"]));
    let findings = at(&body, &["findings"]).as_list().expect("findings");
    assert!(!findings.is_empty(), "findings are planted in h3_const.rs");
    for finding in findings {
        assert_eq!(string(finding, &["file"]), "crates/hard/src/h3_const.rs");
        assert!(matches!(finding.get("rule"), Some(Json::Str(_))));
        assert!(matches!(finding.get("category"), Some(Json::Str(_))));
    }
}

#[test]
fn a_rule_is_explained_by_either_name() {
    for name in ["exit-in-library", "rust/exit-in-library"] {
        let reply = call("explain", &format!("{{\"rule\":\"{name}\"}}"), &basic());
        let body = parse(string(&reply, &["result", "content", "0", "text"]));
        assert_eq!(string(&body, &["name"]), "exit-in-library");
        assert_eq!(string(&body, &["category"]), "containment");
        assert!(matches!(at(&body, &["deducting"]), Json::Bool(true)));
        assert_eq!(at(&body, &["findings"]).as_list().expect("findings").len(), 1);
    }
    // One that is configured and never measured is described all the same.
    let reply = call("explain", "{\"rule\":\"oversized-files\"}", &basic());
    let body = parse(string(&reply, &["result", "content", "0", "text"]));
    assert_eq!(string(&body, &["name"]), "oversized-files");
    assert!(matches!(at(&body, &["deducting"]), Json::Bool(false)));
}

#[test]
fn every_measured_rule_is_listed() {
    let reply = call("rules", "{}", &basic());
    let body = parse(string(&reply, &["result", "content", "0", "text"]));
    let rules = at(&body, &["rules"]).as_list().expect("rules");
    assert_eq!(rules.len(), 9);
    let names: Vec<&str> = rules.iter().map(|r| string(r, &["name"])).collect();
    assert!(names.contains(&"exit-in-library"));
}

// --- datasets ----------------------------------------------------------------

fn analyse(files: &[(&str, &str)]) -> Json {
    view::dataset(
        &whole(files),
        parse("{}"),
        parse("[]"),
        &Meta {
            repo: "acme/thing",
            branch: "main",
            remote: None,
            commits_url: None,
            analysed_ms: None,
            fetched_ms: None,
        },
    )
}

const MANIFEST: &str = r#"
[package]
name = "widget"
version = "0.1.0"
"#;

fn whole_number(j: &Json, path: &[&str]) -> u64 {
    match at(j, path) {
        Json::Whole(n) => *n,
        _ => panic!("a number"),
    }
}

#[test]
fn a_file_belongs_to_the_crate_that_declares_it() {
    let data = analyse(&[("Cargo.toml", MANIFEST), ("src/lib.rs", "pub fn nothing() {}\n")]);
    assert_eq!(string(&data, &["files", "0", "path"]), "src/lib.rs");
    assert_eq!(string(&data, &["files", "0", "pkg"]), "pkg:widget");
    assert_eq!(string(&data, &["packages", "0", "name"]), "widget");
    assert_eq!(whole_number(&data, &["packages", "0", "files"]), 1);
}

#[test]
fn a_function_that_starts_a_process_is_notable_and_says_so() {
    let data = analyse(&[
        ("Cargo.toml", MANIFEST),
        (
            "src/lib.rs",
            r#"
use std::process::Command;
pub fn launch() {
    let _ = Command::new("dsc").status();
}
pub fn quiet() {}
"#,
        ),
    ]);
    let functions = at(&data, &["functions"]).as_list().expect("functions");
    assert_eq!(functions.len(), 1, "only the interesting one is listed");
    assert_eq!(string(&functions[0], &["name"]), "launch");
    assert_eq!(string(&functions[0], &["eff", "0"]), "spawns");
    // Every function is still counted, or the ratio the page prints is a lie.
    assert_eq!(whole_number(&data, &["totals", "functions"]), 2);
    assert_eq!(whole_number(&data, &["totals", "notable"]), 1);

    assert_eq!(string(&data, &["effects", "0", "k"]), "spawns");
    assert_eq!(string(&data, &["effects", "0", "to"]), "dsc");
    assert_eq!(string(&data, &["effects", "0", "file"]), "src/lib.rs");
    assert_eq!(string(&data, &["effects", "0", "pkg"]), "widget");
}

#[test]
fn a_signature_attributes_each_name_to_the_crate_that_defines_it() {
    let data = analyse(&[
        ("Cargo.toml", MANIFEST),
        (
            "src/lib.rs",
            r#"
pub struct Widget { pub id: String }
pub fn find(id: &str) -> Result<Widget, String> { let _ = id; Err(String::new()) }
"#,
        ),
    ]);
    let found = at(&data, &["functions"])
        .as_list()
        .expect("functions")
        .iter()
        .find(|f| string(f, &["name"]) == "find")
        .expect("Result<_, String> makes a function worth showing");

    assert_eq!(string(found, &["r", "0"]), "Result<Widget,String>");
    let parts = at(found, &["r", "1"]).as_list().expect("parts");
    // `Result` and `String` come from outside this scan, so neither is claimed.
    assert_eq!(parts[0].write(), "[\"Result\",null,0]");
    assert!(parts.iter().any(|p| string(p, &["0"]) == "Widget"
        && string(p, &["1"]) == "widget"
        && whole_number(p, &["2"]) == 1));

    let widget = at(&data, &["types"])
        .as_list()
        .expect("types")
        .iter()
        .find(|t| string(t, &["name"]) == "Widget")
        .expect("a declared type is listed");
    assert_eq!(string(widget, &["k"]), "struct");
    assert_eq!(string(widget, &["pkg"]), "widget");
    assert_eq!(string(widget, &["fields", "0", "0"]), "id");
}

#[test]
fn a_workspace_below_the_root_is_still_found() {
    let data = analyse(&[
        ("package.json", "{}"),
        ("cli/Cargo.toml", MANIFEST),
        ("cli/src/lib.rs", "pub fn nothing() {}\n"),
    ]);
    assert_eq!(string(&data, &["packages", "0", "name"]), "widget");
    // Repo-relative, not rebased: a finding has to point at a path someone can
    // open in the repository it came from.
    assert_eq!(string(&data, &["files", "0", "path"]), "cli/src/lib.rs");
}

#[test]
fn the_shallowest_manifest_wins_and_a_workspace_beats_a_package() {
    let workspace = r#"
[workspace]
members = ["inner"]
"#;
    let data = analyse(&[
        ("tools/one/Cargo.toml", MANIFEST),
        ("tools/one/src/lib.rs", "pub fn a() {}\n"),
        ("rust/Cargo.toml", workspace),
        ("rust/inner/Cargo.toml", MANIFEST),
        ("rust/inner/src/lib.rs", "pub fn b() {}\n"),
    ]);
    // rust/ is shallower than tools/one, and names a member besides.
    assert_eq!(string(&data, &["files", "0", "path"]), "rust/inner/src/lib.rs");
    assert_eq!(at(&data, &["files"]).as_list().expect("files").len(), 1);
}

#[test]
fn parameters_keep_their_order_and_a_name_two_crates_define_is_neithers() {
    let data = analyse(&[
        ("Cargo.toml", "[workspace]\nmembers = [\"a\", \"b\"]\n"),
        ("a/Cargo.toml", "[package]\nname = \"a\"\nversion = \"0.1.0\"\n"),
        ("a/src/lib.rs", "pub struct Thing { pub x: u8 }\npub fn f(a: Thing, b: u8, c: u8) {}\n"),
        ("b/Cargo.toml", "[package]\nname = \"b\"\nversion = \"0.1.0\"\n"),
        ("b/src/lib.rs", "pub struct Thing { pub y: u8 }\n"),
    ]);
    let function = at(&data, &["functions", "0"]);
    assert_eq!(string(function, &["name"]), "f");
    assert_eq!(string(function, &["p", "0", "0"]), "a");
    assert_eq!(string(function, &["p", "0", "1"]), "Thing");
    assert_eq!(string(function, &["p", "0", "2", "0", "1"]), "~");
    assert_eq!(string(function, &["p", "2", "0"]), "c");
    assert_eq!(whole_number(&data, &["totals", "types"]), 1);
}

#[test]
fn a_file_that_does_not_parse_is_named_and_skipped() {
    let vfs = vfs_of(&[
        ("Cargo.toml", MANIFEST),
        ("src/lib.rs", "pub fn ok() {}\n"),
        ("src/bad.rs", "fn (\n"),
    ]);
    let metadata = manifest::read(&vfs).expect("manifests");
    let (_, unparsed) = extract::parse_all(&vfs, &metadata);
    assert_eq!(unparsed.len(), 1);
    assert!(unparsed[0].starts_with("src/bad.rs: "));
    let (_, stats) = extract::run(&vfs).map_err(|e| e.message()).expect("extract");
    assert_eq!(stats.files, 1);
    assert_eq!(stats.packages, 1);
    assert_eq!(stats.unparsed, unparsed);
}

#[test]
fn a_tree_without_a_manifest_is_refused() {
    let vfs = vfs_of(&[("src/lib.rs", "pub fn ok() {}\n")]);
    let refused = extract::run(&vfs);
    let message = refused.map(|_| ()).map_err(|e| e.message()).expect_err("no manifest");
    assert!(message.starts_with("cargo metadata: "), "{message}");
}
