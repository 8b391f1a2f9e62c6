//! Text, paths, syntax and facts, one piece at a time.

use cqx::extract;
use cqx::history;
use cqx::json::{self, Json};
use cqx::manifest::Target;
use cqx::measure::{self, Real};
use cqx::prepass::PackageFacts;
use cqx::schema::{Edge, EdgeKind, Evidence, Fact, Id, Node, NodeKind};
use cqx::syntax::{self, Arg, Attr, Binding, Expression, Extent, Form, Import, Step, TypeRef};
use cqx::table::Table;
use cqx::text;
use cqx::vfs::{self, Vfs};
use cqx::visit;
use cqx::wire;
use cqx::writer::Writer;

const SAMPLES: [&str; 14] = [
    "",
    " ",
    "a",
    "/",
    "a/b/c",
    "  spaced out\t ",
    "\u{2003}wide\u{a0}",
    "line one\nline two\r\n\nlast",
    "ends\n",
    "::a::b::",
    "été/ñandú",
    "././src",
    "+12",
    "0042",
];

#[test]
fn text_is_cut_as_std_cuts_it() {
    let owned = |r: Option<(&str, &str)>| r.map(|(a, b)| (a.to_string(), b.to_string()));
    for s in SAMPLES {
        assert_eq!(text::to_chars(s), s.chars().collect::<Vec<char>>());
        assert_eq!(text::trim(s), s.trim(), "{s:?}");
        assert_eq!(text::trim_start(s), s.trim_start(), "{s:?}");
        assert_eq!(text::trim_end(s), s.trim_end(), "{s:?}");
        assert_eq!(text::is_empty(s), s.is_empty(), "{s:?}");
        assert_eq!(text::words(s), s.split_whitespace().collect::<Vec<_>>(), "{s:?}");
        assert_eq!(text::lines(s), s.lines().collect::<Vec<_>>(), "{s:?}");
        assert_eq!(text::replace(s, '/', "::"), s.replace('/', "::"), "{s:?}");
        assert_eq!(text::left(s, 9), format!("{s:<9}"), "{s:?}");
        assert_eq!(text::right(s, 9), format!("{s:>9}"), "{s:?}");
        assert_eq!(text::count(s, 'a'), s.matches('a').count(), "{s:?}");
        assert_eq!(text::upper(s), s.to_ascii_uppercase(), "{s:?}");
        assert_eq!(text::lower(s), s.to_ascii_lowercase(), "{s:?}");
        assert_eq!(text::parse_small(s), s.parse::<u32>().ok(), "{s:?}");
        assert_eq!(text::parse_count(s), s.parse::<u64>().ok(), "{s:?}");
        for part in ["/", "::", "a", "./", "line"] {
            assert_eq!(text::starts_with(s, part), s.starts_with(part), "{s:?} {part:?}");
            assert_eq!(text::ends_with(s, part), s.ends_with(part), "{s:?} {part:?}");
            assert_eq!(text::contains(s, part), s.contains(part), "{s:?} {part:?}");
            assert_eq!(text::split(s, part), s.split(part).collect::<Vec<_>>(), "{s:?} {part:?}");
            assert_eq!(text::split_once(s, part), owned(s.split_once(part)), "{s:?} {part:?}");
            assert_eq!(text::rsplit_once(s, part), owned(s.rsplit_once(part)), "{s:?} {part:?}");
            assert_eq!(text::strip_prefix(s, part).as_deref(), s.strip_prefix(part));
            assert_eq!(text::strip_suffix(s, part).as_deref(), s.strip_suffix(part));
            assert_eq!(text::trim_start_matches(s, part), s.trim_start_matches(part));
            assert_eq!(text::trim_end_matches(s, part), s.trim_end_matches(part));
            assert_eq!(text::after_last(s, part), s.rsplit(part).next().unwrap());
            assert_eq!(text::before_first(s, part), s.split(part).next().unwrap());
        }
        for other in SAMPLES {
            assert_eq!(text::same(s, other), s == other);
            assert_eq!(text::is_less(s, other), s < other, "{s:?} {other:?}");
            assert_eq!(text::cat(s, other), format!("{s}{other}"));
        }
    }
    for n in 0..=0xffff_u32 {
        if let Some(c) = char::from_u32(n) {
            assert_eq!(text::is_whitespace(c), c.is_whitespace(), "{n:#x}");
        }
    }
}

#[test]
fn numbers_are_written_as_std_writes_them() {
    for n in [0, 7, 10, 255, 4_294_967_296, u64::MAX] {
        assert_eq!(text::decimal(n), n.to_string());
        assert_eq!(text::hex(n), format!("{n:x}"));
    }
    for n in [0, 5, -5, i64::MAX, i64::MIN] {
        assert_eq!(text::signed(n), n.to_string());
    }
    assert_eq!(text::parse_whole("-2500"), Some(-2500));
    assert_eq!(text::parse_whole("2500.5"), None);
    assert_eq!(text::parse_whole("9000000000000000"), None);
    assert_eq!(text::parse_small("4294967296"), None);
    assert_eq!(text::cat5("a", "b", "c", "d", "e"), "abcde");
    assert_eq!(text::cat4("a", "b", "c", "d"), text::cat(&text::cat3("a", "b", "c"), "d"));
    assert_eq!(text::repeat('-', 3), "---");
    let list = vec!["a".to_string(), "b".to_string()];
    assert_eq!(text::join(&list, ", "), "a, b");
    assert!(text::lists(&list, "b"));
    assert!(!text::lists(&list, "c"));
}

#[test]
fn numbers_are_told_apart_by_their_bits() {
    let real = |x: f64| Real { bits: x.to_bits(), text: x.to_string() };
    assert!(real(0.5).is_positive());
    assert!(!real(0.0).is_positive());
    assert!(!real(-1.0).is_positive());
    assert!(!real(f64::NAN).is_positive());
    assert!(measure::is_half(15.0_f64.to_bits(), 30.0_f64.to_bits()));
    assert!(!measure::is_half(14.9_f64.to_bits(), 30.0_f64.to_bits()));
    let sorted = [f64::NEG_INFINITY, -1.0, -0.0, 0.0, 2.5, f64::INFINITY, f64::NAN];
    for (i, a) in sorted.iter().enumerate() {
        for (j, b) in sorted.iter().enumerate() {
            assert_eq!(measure::is_before(a.to_bits(), b.to_bits()), i < j, "{a} {b}");
        }
    }
}

// --- trees -------------------------------------------------------------------

#[test]
fn a_tree_is_walked_by_its_paths() {
    let mut tree = Vfs::new("here");
    assert!(tree.is_empty());
    tree.insert_blob("src/a.rs", "fn a() {}", "b10b");
    tree.insert("src/deep/b.rs", "é");
    tree.insert("srcs/c.rs", "");
    assert_eq!(tree.len(), 3);
    assert_eq!(tree.paths(), ["src/a.rs", "src/deep/b.rs", "srcs/c.rs"]);
    assert_eq!(tree.under("src"), ["src/a.rs", "src/deep/b.rs"]);
    assert_eq!(tree.under("./src/"), ["src/a.rs", "src/deep/b.rs"]);
    assert_eq!(tree.under("").len(), 3);
    assert_eq!(tree.total_bytes(), 11);
    assert_eq!(tree.files.get("src/a.rs").unwrap().blob.as_deref(), Some("b10b"));
    assert!(tree.files.get("src/deep/b.rs").unwrap().blob.is_none());
    assert!(tree.contains("/src/a.rs"));
    assert!(!tree.contains("src/b.rs"));
}

#[test]
fn only_source_and_manifests_are_worth_carrying() {
    for path in ["a.rs", "Cargo.toml", "x/Cargo.toml", "Cargo.lock", "x/Cargo.lock"] {
        assert!(vfs::is_interesting(path), "{path}");
    }
    for path in ["a.rsx", "MyCargo.toml", "README.md", "x/Cargo.locks"] {
        assert!(!vfs::is_interesting(path), "{path}");
    }
    for name in ["target", ".git", "node_modules", ".target-wasm"] {
        assert!(vfs::is_ignored_dir(name), "{name}");
    }
    for name in ["targets", "src", ".github"] {
        assert!(!vfs::is_ignored_dir(name), "{name}");
    }
}

#[test]
fn a_file_belongs_to_the_root_above_it() {
    assert_eq!(extract::parent_of("crates/a/src/lib.rs"), "crates/a/src");
    assert_eq!(extract::parent_of("lib.rs"), "");
    assert!(extract::is_inside("a/b.rs", "a"));
    assert!(extract::is_inside("a/b.rs", ""));
    assert!(!extract::is_inside("ab/c.rs", "a"));
    assert_eq!(extract::module_prefix("src", "src/net/tcp.rs"), "net::tcp");
    assert_eq!(extract::module_prefix("src", "src/lib.rs"), "");

    let target = |kind: &str, path: &str| Target {
        name: "x".to_string(),
        kind: kind.to_string(),
        src_path: path.to_string(),
    };
    let roots = extract::source_roots(
        &vec![target("lib", "a/src/lib.rs"), target("test", "a/tests/t.rs")],
        "a",
    );
    assert!(roots.contains(&("a/src".to_string(), false)), "{roots:?}");
    assert!(roots.contains(&("a/tests".to_string(), true)), "{roots:?}");

    let mut tree = Vfs::new("");
    tree.insert("a/src/lib.rs", "fn x() {}");
    tree.insert("a/src/nested/src/lib.rs", "fn y() {}");
    tree.insert("a/tests/t.rs", "fn (");
    let found = extract::files_of(&tree, &roots, &vec!["a/src/nested".to_string()]);
    let paths: Vec<&str> = found.iter().map(|f| f.path.as_str()).collect();
    assert_eq!(paths, ["a/src/lib.rs", "a/tests/t.rs"]);
    assert!(!found[0].is_test && found[1].is_test);

    let nested = vec!["a/src/nested".to_string()];
    let (parsed, unparsed) = extract::parse_package(&tree, &roots, &nested);
    assert_eq!(parsed.len(), 1);
    assert_eq!(parsed[0].rel_path, "a/src/lib.rs");
    assert_eq!(unparsed.len(), 1);
    assert!(unparsed[0].starts_with("a/tests/t.rs: "), "{unparsed:?}");
    let seen = std::cell::Cell::new(0);
    let (watched, _) =
        extract::parse_package_watched(&tree, &roots, &nested, || seen.set(seen.get() + 1));
    assert_eq!(watched.len(), 1);
    assert_eq!(seen.get(), 2);
}

// --- syntax ------------------------------------------------------------------

fn path(parts: &[&str]) -> Expression {
    Expression::Path(parts.iter().map(|s| s.to_string()).collect())
}

fn named(idents: &[&str], tokens: &str, args: Vec<Arg>) -> TypeRef {
    TypeRef {
        tokens: tokens.to_string(),
        form: Form::Path { idents: idents.iter().map(|s| s.to_string()).collect(), args },
    }
}

fn nowhere() -> Extent {
    Extent { start_line: 1, start_col: 0, end_line: 1, end_col: 1 }
}

#[test]
fn an_expression_says_what_it_calls() {
    let call = Expression::Call(Box::new(path(&["std", "fs", "read"])));
    assert_eq!(syntax::callee_path(&path(&["std", "fs", "read"])).as_deref(), Some("std::fs::read"));
    assert_eq!(syntax::called_name(&call).as_deref(), Some("read"));
    let tried = Expression::Try(Box::new(Expression::Method {
        name: "check".to_string(),
        receiver: Box::new(path(&["self"])),
    }));
    assert_eq!(syntax::called_name(&tried).as_deref(), Some("check"));
    assert_eq!(syntax::called_name(&Expression::Other), None);

    assert_eq!(syntax::string_literal(&Expression::Str("sh".to_string())).as_deref(), Some("sh"));
    assert_eq!(syntax::string_literal(&call), None);
    let body = vec![Step::Tail(Box::new(Expression::Str("dsc".to_string())))];
    assert_eq!(syntax::sole_string_literal(&body).as_deref(), Some("dsc"));
    assert_eq!(syntax::sole_string_literal(&vec![Step::Other]), None);

    let bound = syntax::binding_of(&Expression::Str("x".to_string()));
    assert!(matches!(bound, Some(Binding::Literal(s)) if s == "x"));
    assert!(matches!(syntax::binding_of(&call), Some(Binding::Call(_))));
    assert!(syntax::binding_of(&Expression::Other).is_none());

    assert!(syntax::does_nothing(&Expression::Tuple(Vec::new())));
    assert!(syntax::does_nothing(&Expression::Block(Vec::new())));
    assert!(!syntax::does_nothing(&call));
    assert!(syntax::looks_structured("{{\"ok\":{}}}"));
    assert!(!syntax::looks_structured("hello {name}"));
    assert!(syntax::is_net_path("std::net::TcpStream::connect"));
    assert!(!syntax::is_net_path("std::fs::read"));
}

#[test]
fn two_spellings_of_a_type_are_one() {
    let inner = named(&["String"], "String", Vec::new());
    let spaced = named(&["Vec"], "Vec < String >", vec![Arg::Type(inner)]);
    assert_eq!(syntax::type_text(&spaced), "Vec<String>");
    assert_eq!(syntax::base_name(&spaced).as_deref(), Some("Vec"));
    let borrowed = TypeRef {
        tokens: "& 'a mut dyn Été".to_string(),
        form: Form::Reference(Box::new(named(&["a", "Été"], "a :: Été", Vec::new()))),
    };
    assert_eq!(syntax::type_text(&borrowed), "&'a mut dyn Été");
    assert_eq!(syntax::base_name(&borrowed).as_deref(), Some("Été"));
}

#[test]
fn an_import_is_unfolded_to_its_leaves() {
    let tree = Import::Path(
        "std".to_string(),
        Box::new(Import::Group(vec![
            Import::Name("fs".to_string()),
            Import::Path("io".to_string(), Box::new(Import::Glob)),
            Import::Rename { name: "env".to_string(), rename: "e".to_string() },
        ])),
    );
    let mut leaves = Vec::new();
    syntax::use_leaves(&tree, &Vec::new(), &mut leaves);
    let shown: Vec<String> = leaves.iter().map(|l| l.join("::")).collect();
    assert_eq!(shown, ["std::fs", "std::io::*", "std::env"]);
}

#[test]
fn test_code_is_marked() {
    let attr = |name: &str, metas: &[&str]| Attr {
        name: Some(name.to_string()),
        metas: metas.iter().map(|m| vec![m.to_string()]).collect(),
        span: nowhere(),
    };
    assert!(syntax::is_cfg_test_attr(&attr("cfg", &["test"])));
    assert!(!syntax::is_cfg_test_attr(&attr("cfg", &["unix"])));
    assert!(!syntax::is_cfg_test_attr(&attr("allow", &["test"])));
    assert!(syntax::has_cfg_test(&vec![attr("inline", &[]), attr("cfg", &["test"])]));
    assert!(!syntax::has_cfg_test(&Vec::new()));
}

#[test]
fn only_a_body_of_some_length_has_a_fingerprint() {
    let long = "{ let mut total = 0 ; for item in items { total += item . size ( ) ; } \
                if total > limit { return Err ( Error :: TooLarge { total , limit } ) ; } \
                log ( total ) ; remember ( total ) ; forget ( items ) ; tell ( everyone , total ) ; \
                Ok ( total ) }";
    assert!(long.len() >= 220);
    let print = visit::body_fingerprint(long);
    assert!(print.is_some());
    assert_eq!(print, visit::body_fingerprint(long));
    let body = long.split_whitespace().collect::<Vec<_>>().join(" ");
    let mut hasher = std::collections::hash_map::DefaultHasher::new();
    std::hash::Hash::hash(body.as_str(), &mut hasher);
    let hash = std::hash::Hasher::finish(&hasher);
    assert_eq!(print, Some(format!("{hash:x}")));
    assert_ne!(print, visit::body_fingerprint(&long.replace("total", "sum")));
    assert_eq!(visit::body_fingerprint("{ self . 0 }"), None);
}

// --- facts -------------------------------------------------------------------

#[test]
fn an_id_says_what_it_is_of() {
    let ids = [
        (Id::package("a"), "pkg:a"),
        (Id::directory("src"), "dir:src"),
        (Id::file("src/lib.rs"), "file:src/lib.rs"),
        (Id::symbol("a::b"), "sym:a::b"),
        (Id::process("sh"), "proc:sh"),
        (Id::env_var("HOME"), "env:HOME"),
        (Id::capability("fs"), "cap:fs"),
        (Id::external("serde"), "ext:serde"),
        (Id::type_ref("Vec"), "type:Vec"),
        (Id::binary("cqx"), "bin:cqx"),
    ];
    for (id, shown) in ids {
        assert_eq!(id.to_text(), shown);
    }
}

#[test]
fn a_fact_reads_back_as_it_was_written() {
    let edge = Edge::new(EdgeKind::ReadsEnv, Id::symbol("a::b"), Id::env_var("HOME"))
        .evidence(Evidence::spanning("src/lib.rs", [3, 4], [1, 9]))
        .inferred("name")
        .in_test(true)
        .attr("op", Json::str("env::var"));
    let fact = Fact::Edge(edge);
    let written = wire::write_fact(&fact).write();
    let again = wire::read_fact(&Json::parse(&written).unwrap()).unwrap();
    assert_eq!(wire::write_fact(&again).write(), written);
    match again {
        Fact::Edge(e) => {
            assert_eq!(e.to.0, "env:HOME");
            assert_eq!(e.ev[0].line, [3, 4]);
            assert_eq!(e.ev[0].col, Some([1, 9]));
        }
        _ => panic!("an edge was written: {written}"),
    }
}

#[test]
fn a_node_is_written_once() {
    let mut out = Writer::new();
    out.fact(&Fact::header("rust", "here"));
    let node = || Node::new(Id::package("a"), NodeKind::Package).attr("name", Json::str("a"));
    out.node(node());
    out.node(node());
    out.edge(Edge::new(EdgeKind::Contains, Id::package("a"), Id::directory("src")));
    assert_eq!((out.nodes(), out.edges()), (1, 1));
    assert_eq!(out.text().lines().count(), 3);
}

#[test]
fn a_field_is_replaced_where_it_stands() {
    let mut fields = vec![("a".to_string(), Json::Whole(1)), ("b".to_string(), Json::Null)];
    json::set_field(&mut fields, "a", Json::Bool(true));
    json::set_field(&mut fields, "c", Json::str("x"));
    let object = Json::object(json::copy_fields(&fields));
    assert_eq!(object.write(), r#"{"a":true,"b":null,"c":"x"}"#);
    assert_eq!(object.text_at("c", "-"), "x");
    assert_eq!(object.text_at("a", "-"), "-");
    assert_eq!(object.whole_at("a", 9), 9);
    let half = Json::parse("0.5").unwrap();
    assert_eq!(half.as_real().map(|r| f64::from_bits(r.bits)), Some(0.5));
    assert_eq!(Json::Whole(3).as_real().map(|r| f64::from_bits(r.bits)), Some(3.0));
    assert!(Json::str("3").as_real().is_none());
    for n in ["0.1", "1e300", "123456789.123456789", "-0.0", "5e-324"] {
        let read = Json::parse(n).unwrap();
        let again = Json::parse(&read.write()).unwrap();
        assert_eq!(again.write(), read.write(), "{n}");
    }
}

#[test]
fn facts_can_be_taken_out_of_a_package() {
    let mut facts = PackageFacts::default();
    assert!(facts.aliases_for("src/lib.rs").is_empty());
    facts.held.constants.insert("NAME".to_string(), "x".to_string());
    let shared = facts.into_shared();
    assert_eq!(shared.constants.get("NAME").map(String::as_str), Some("x"));
}

#[test]
fn scores_are_shown_by_three_letters() {
    let mut scores: Table<u32> = Table::new();
    scores.insert("quality".to_string(), 90);
    scores.insert("boundaries".to_string(), 7);
    assert_eq!(history::show_scores(&scores), "bou:7 qua:90");
    let mut foreign: Table<u32> = Table::new();
    foreign.insert("\u{e9}xab".to_string(), 5);
    foreign.insert("\u{4e2d}\u{6587}".to_string(), 6);
    assert_eq!(history::show_scores(&foreign), "\u{e9}x:5 \u{4e2d}:6");
    let read = history::read_scores(Some(&Json::parse(r#"{"quality":90}"#).unwrap())).unwrap();
    assert_eq!(read.get("quality"), Some(&90));
    assert!(history::read_scores(None).is_none());
}
