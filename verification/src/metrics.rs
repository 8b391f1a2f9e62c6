//! Turning a fact stream into the counts the rules are scored against.

use vstd::prelude::*;

use crate::facts::{Stream, StreamV};
use crate::json::{self, Json, JsonV};
use crate::schema::{Edge, EdgeKind, EdgeV, Node, NodeKind, NodeV};
use crate::table::{self, Names, Table};
use crate::text::{self, Text};

verus! {

/// How much of something there is.
#[derive(Debug, Clone, Copy)]
pub enum Amount {
    /// So many, to be held against the size of the code.
    Count(u64),
    /// So many out of so many.
    Share { part: u64, whole: u64 },
}

#[derive(Debug)]
pub struct Finding {
    pub what: String,
    pub file: String,
    pub line: u32,
}

pub struct FindingV {
    pub what: Text,
    pub file: Text,
    pub line: u32,
}

impl DeepView for Finding {
    type V = FindingV;

    open spec fn deep_view(&self) -> FindingV {
        FindingV { what: self.what@, file: self.file@, line: self.line }
    }
}

/// One rule's input: how much, and the findings that make it up.
#[derive(Debug)]
pub struct Measure {
    pub amount: Amount,
    pub findings: Vec<Finding>,
}

pub struct MeasureV {
    pub amount: Amount,
    pub findings: Seq<FindingV>,
}

impl DeepView for Measure {
    type V = MeasureV;

    open spec fn deep_view(&self) -> MeasureV {
        MeasureV { amount: self.amount, findings: self.findings.deep_view() }
    }
}

pub struct Metrics {
    /// Lines of product code.
    pub lines: u64,
    pub values: Table<Measure>,
}

pub struct MetricsV {
    pub lines: u64,
    pub values: Seq<(Text, MeasureV)>,
}

impl DeepView for Metrics {
    type V = MetricsV;

    open spec fn deep_view(&self) -> MetricsV {
        MetricsV { lines: self.lines, values: self.values.deep_view() }
    }
}

// --- reading an edge ---------------------------------------------------------

pub open spec fn attr_of(attrs: Seq<(Text, JsonV)>, key: Text) -> Text {
    json::str_or(table::lookup(attrs, key), seq![])
}

pub(crate) fn attr(attrs: &Vec<(String, Json)>, key: &str) -> (s: String)
    ensures
        s@ == attr_of(attrs.deep_view(), key@),
{
    match json::field(attrs, key) {
        Some(Json::Str(s)) => s.clone(),
        _ => text::empty(),
    }
}

/// Whether an edge is about the product rather than its tests.
pub open spec fn of_product(e: EdgeV) -> bool {
    json::str_of(table::lookup(e.attrs, "role"@)) != Some("test"@)
}

fn has_test_role(attrs: &Vec<(String, Json)>) -> (r: bool)
    ensures
        r == (json::str_of(table::lookup(attrs.deep_view(), "role"@)) == Some("test"@)),
{
    match json::field(attrs, "role") {
        Some(Json::Str(s)) => text::same(s.as_str(), "test"),
        _ => false,
    }
}

/// The package a symbol is in.
pub open spec fn package_in(id: Text) -> Option<Text> {
    match text::without_prefix(id, "sym:"@) {
        Some(rest) => Some(text::head_before(rest, "::"@)),
        None => None,
    }
}

pub fn package_of(id: &str) -> (name: Option<String>)
    ensures
        name.deep_view() == package_in(id@),
{
    match text::strip_prefix(id, "sym:") {
        Some(rest) => Some(text::before_first(rest.as_str(), "::")),
        None => None,
    }
}

/// A symbol is in the package that its id names first.
pub proof fn lemma_package_named(package: Text, rest: Text)
    requires
        !text::has_part(package, ":"@),
    ensures
        package_in("sym:"@ + (package + "::"@ + rest)) == Some(package),
{
    reveal_strlit("sym:");
    reveal_strlit("::");
    reveal_strlit(":");
    let path = package + "::"@ + rest;
    let id = "sym:"@ + path;
    assert(id.subrange(0, 4) =~= "sym:"@);
    assert(id.skip(4) =~= path);
    text::lemma_find_from(path, "::"@, 0);
    let at = package.len() as int;
    assert(path.subrange(at, at + 2) =~= "::"@);
    assert(text::occurs_at(path, "::"@, at));
    let found = text::find_from(path, "::"@, 0).unwrap();
    if found < at {
        assert(path.subrange(found, found + 2)[0] == ':');
        assert(package.subrange(found, found + 1) =~= ":"@);
        assert(text::occurs_at(package, ":"@, found));
    }
    assert(path.take(at) =~= package);
}

/// A finding where an edge says it is.
pub open spec fn found(what: Text, e: EdgeV) -> FindingV {
    if e.ev.len() == 0 {
        FindingV { what, file: seq![], line: 0 }
    } else {
        FindingV { what, file: e.ev[0].file, line: e.ev[0].line.0 }
    }
}

fn finding(what: String, e: &Edge) -> (f: Finding)
    ensures
        f.deep_view() == found(what@, e.deep_view()),
{
    if e.ev.len() == 0 {
        Finding { what, file: text::empty(), line: 0 }
    } else {
        assert(e.deep_view().ev[0] == e.ev@[0].deep_view());
        Finding { what, file: e.ev[0].file.clone(), line: e.ev[0].line[0] }
    }
}

// --- what is product ---------------------------------------------------------

pub open spec fn is_test_file(n: NodeV) -> bool {
    n.kind == NodeKind::File && json::str_of(table::lookup(n.attrs, "role"@)) == Some("test"@)
}

/// The test files among the first `n` nodes.
pub open spec fn test_files(nodes: Seq<NodeV>, n: nat) -> Seq<(Text, ())>
    decreases n,
{
    if n == 0 {
        seq![]
    } else {
        let before = test_files(nodes, (n - 1) as nat);
        if is_test_file(nodes[n - 1]) {
            table::put(before, nodes[n - 1].id, ())
        } else {
            before
        }
    }
}

fn find_test_files(nodes: &Vec<Node>) -> (out: Names)
    ensures
        out.deep_view() == test_files(nodes.deep_view(), nodes@.len()),
{
    let mut out: Names = Table::new();
    let mut i: usize = 0;
    while i < nodes.len()
        invariant
            i <= nodes.len(),
            out.deep_view() == test_files(nodes.deep_view(), i as nat),
        decreases nodes.len() - i,
    {
        assert(nodes.deep_view()[i as int] == nodes@[i as int].deep_view());
        if nodes[i].kind == NodeKind::File && has_test_role(&nodes[i].attrs) {
            let _ = out.insert(nodes[i].id.0.clone(), ());
        }
        i += 1;
    }
    out
}

pub open spec fn excluded(exclude: Seq<Text>, path: Text) -> bool {
    exists|i: int| 0 <= i < exclude.len() && text::has_prefix(path, #[trigger] exclude[i])
}

fn is_excluded(exclude: &Vec<String>, path: &str) -> (r: bool)
    ensures
        r == excluded(exclude.deep_view(), path@),
{
    let mut i: usize = 0;
    while i < exclude.len()
        invariant
            i <= exclude.len(),
            forall|k: int|
                0 <= k < i ==> !text::has_prefix(path@, #[trigger] exclude.deep_view()[k]),
        decreases exclude.len() - i,
    {
        assert(exclude.deep_view()[i as int] == exclude@[i as int]@);
        if text::starts_with(path, exclude[i].as_str()) {
            return true;
        }
        i += 1;
    }
    false
}

/// The lines of the product among the first `n` nodes, as far as they can be
/// counted.
pub open spec fn product_lines(nodes: Seq<NodeV>, tests: Seq<(Text, ())>, exclude: Seq<Text>, n: nat) -> nat
    decreases n,
{
    if n == 0 {
        0
    } else {
        let before = product_lines(nodes, tests, exclude, (n - 1) as nat);
        let node = nodes[n - 1];
        if node.kind != NodeKind::File || table::lookup(tests, node.id) is Some || excluded(
            exclude,
            attr_of(node.attrs, "path"@),
        ) {
            before
        } else {
            counted(before + json::whole_or(table::lookup(node.attrs, "lines"@), 0))
        }
    }
}

/// A number, or the largest there is.
pub open spec fn counted(n: int) -> nat {
    if n <= u64::MAX {
        n as nat
    } else {
        u64::MAX as nat
    }
}

fn whole(attrs: &Vec<(String, Json)>, key: &str) -> (n: u64)
    ensures
        n == json::whole_or(table::lookup(attrs.deep_view(), key@), 0),
{
    match json::field(attrs, key) {
        Some(Json::Whole(n)) => *n,
        _ => 0,
    }
}

fn count_lines(nodes: &Vec<Node>, tests: &Names, exclude: &Vec<String>) -> (lines: u64)
    ensures
        lines == product_lines(
            nodes.deep_view(),
            tests.deep_view(),
            exclude.deep_view(),
            nodes@.len(),
        ),
{
    let mut lines: u64 = 0;
    let mut i: usize = 0;
    while i < nodes.len()
        invariant
            i <= nodes.len(),
            lines == product_lines(
                nodes.deep_view(),
                tests.deep_view(),
                exclude.deep_view(),
                i as nat,
            ),
        decreases nodes.len() - i,
    {
        let node = &nodes[i];
        assert(nodes.deep_view()[i as int] == node.deep_view());
        if node.kind == NodeKind::File && !tests.contains(node.id.0.as_str()) && !is_excluded(
            exclude,
            attr(&node.attrs, "path").as_str(),
        ) {
            let more: u64 = whole(&node.attrs, "lines");
            lines = if lines <= u64::MAX - more {
                lines + more
            } else {
                u64::MAX
            };
        }
        i += 1;
    }
    lines
}

/// The packages that build a program, by the first `n` edges.
pub open spec fn programs(edges: Seq<EdgeV>, n: nat) -> Seq<(Text, ())>
    decreases n,
{
    if n == 0 {
        seq![]
    } else {
        let before = programs(edges, (n - 1) as nat);
        let e = edges[n - 1];
        match text::without_prefix(e.from, "pkg:"@) {
            Some(name) => if e.kind == EdgeKind::Contains && text::has_prefix(e.to, "bin:"@) {
                table::put(before, name, ())
            } else {
                before
            },
            None => before,
        }
    }
}

/// The file that each symbol stands in, by the first `n` edges.
pub open spec fn symbol_files(edges: Seq<EdgeV>, n: nat) -> Seq<(Text, Text)>
    decreases n,
{
    if n == 0 {
        seq![]
    } else {
        let before = symbol_files(edges, (n - 1) as nat);
        let e = edges[n - 1];
        if e.kind == EdgeKind::Contains && text::has_prefix(e.from, "file:"@) && text::has_prefix(
            e.to,
            "sym:"@,
        ) {
            table::put(before, e.to, e.from)
        } else {
            before
        }
    }
}

/// What tells the product from its tests and from what is left out, and a
/// library from a program.
pub struct Ground {
    pub tests: Names,
    pub files: Table<String>,
    pub programs: Names,
    pub exclude: Vec<String>,
}

pub struct GroundV {
    pub tests: Seq<(Text, ())>,
    pub files: Seq<(Text, Text)>,
    pub programs: Seq<(Text, ())>,
    pub exclude: Seq<Text>,
}

impl DeepView for Ground {
    type V = GroundV;

    open spec fn deep_view(&self) -> GroundV {
        GroundV {
            tests: self.tests.deep_view(),
            files: self.files.deep_view(),
            programs: self.programs.deep_view(),
            exclude: self.exclude.deep_view(),
        }
    }
}

pub open spec fn ground_of(stream: StreamV, exclude: Seq<Text>) -> GroundV {
    GroundV {
        tests: test_files(stream.nodes, stream.nodes.len()),
        files: symbol_files(stream.edges, stream.edges.len()),
        programs: programs(stream.edges, stream.edges.len()),
        exclude,
    }
}

impl GroundV {
    /// A declaration is placed by the file that holds its symbol.
    pub open spec fn in_product(self, symbol: Text) -> bool {
        match table::lookup(self.files, symbol) {
            Some(file) => table::lookup(self.tests, file) is None,
            None => true,
        }
    }

    /// Whether a symbol stands where code is measured.
    pub open spec fn measures(self, symbol: Text) -> bool {
        match table::lookup(self.files, symbol) {
            Some(file) => !excluded(self.exclude, text::shorn_start(file, "file:"@)),
            None => true,
        }
    }

    /// Whether an edge is about code that is measured: by where it was seen,
    /// or else by the symbol it belongs to.
    pub open spec fn covers(self, e: EdgeV) -> bool {
        if e.ev.len() > 0 {
            !excluded(self.exclude, e.ev[0].file)
        } else {
            self.measures(e.from)
        }
    }
}

impl Ground {
    fn of(stream: &Stream, exclude: &Vec<String>) -> (ground: Ground)
        ensures
            ground.deep_view() == ground_of(stream.deep_view(), exclude.deep_view()),
    {
        let mut files: Table<String> = Table::new();
        let mut programs: Names = Table::new();
        let edges = &stream.edges;
        let mut i: usize = 0;
        while i < edges.len()
            invariant
                i <= edges.len(),
                files.deep_view() == symbol_files(edges.deep_view(), i as nat),
                programs.deep_view() == self::programs(edges.deep_view(), i as nat),
            decreases edges.len() - i,
        {
            let e = &edges[i];
            assert(edges.deep_view()[i as int] == e.deep_view());
            if e.kind == EdgeKind::Contains {
                if text::starts_with(e.from.0.as_str(), "file:") && text::starts_with(
                    e.to.0.as_str(),
                    "sym:",
                ) {
                    let _ = files.insert(e.to.0.clone(), e.from.0.clone());
                }
                if text::starts_with(e.to.0.as_str(), "bin:") {
                    if let Some(name) = text::strip_prefix(e.from.0.as_str(), "pkg:") {
                        let _ = programs.insert(name, ());
                    }
                }
            }
            i += 1;
        }
        Ground {
            tests: find_test_files(&stream.nodes),
            files,
            programs,
            exclude: text::copy_list(exclude),
        }
    }

    fn measures(&self, symbol: &str) -> (r: bool)
        ensures
            r == self.deep_view().measures(symbol@),
    {
        proof {
            reveal_strlit("file:");
        }
        match self.files.get(symbol) {
            Some(file) => !is_excluded(
                &self.exclude,
                text::trim_start_matches(file.as_str(), "file:").as_str(),
            ),
            None => true,
        }
    }

    fn covers(&self, e: &Edge) -> (r: bool)
        ensures
            r == self.deep_view().covers(e.deep_view()),
    {
        if e.ev.len() > 0 {
            assert(e.deep_view().ev[0] == e.ev@[0].deep_view());
            !is_excluded(&self.exclude, e.ev[0].file.as_str())
        } else {
            self.measures(e.from.0.as_str())
        }
    }

    fn in_product(&self, symbol: &str) -> (r: bool)
        ensures
            r == self.deep_view().in_product(symbol@),
    {
        match self.files.get(symbol) {
            Some(file) => !self.tests.contains(file.as_str()),
            None => true,
        }
    }
}

// --- findings ----------------------------------------------------------------

/// What is looked for among the edges.
#[derive(Clone, Copy, PartialEq, Eq, Structural)]
pub enum Probe {
    ResultString,
    BroadSilence,
    Undocumented,
    ExitInLibrary,
    EnvSpawn,
    Shell,
    Unproven,
}

pub open spec fn is_crate_silence(e: EdgeV) -> bool {
    e.kind == EdgeKind::Silences && attr_of(e.attrs, "scope"@) == "crate"@
}

pub open spec fn is_spawn(e: EdgeV) -> bool {
    e.kind == EdgeKind::Spawns && of_product(e)
}

/// Spawns and reads of the environment, whose target someone chose.
pub open spec fn is_aimed(e: EdgeV) -> bool {
    (e.kind == EdgeKind::Spawns || e.kind == EdgeKind::ReadsEnv) && of_product(e)
}

pub open spec fn is_shell(to: Text) -> bool {
    text::has_part(to, "zsh"@) || text::has_part(to, "bash"@) || text::has_part(to, "/sh"@)
        || text::has_part(to, "cmd"@) || text::has_part(to, "powershell"@)
}

/// What a probe makes of an edge, where it finds anything.
pub open spec fn probed(probe: Probe, e: EdgeV, ground: GroundV) -> Option<Text> {
    match probe {
        Probe::ResultString => if e.kind == EdgeKind::Returns && text::has_part(
            text::replaced(e.to, ' ', seq![]),
            ",String>"@,
        ) && ground.in_product(e.from) {
            Some("returns Result<_, String>"@)
        } else {
            None
        },
        Probe::BroadSilence => if is_crate_silence(e) && attr_of(e.attrs, "breadth"@) == "broad"@ {
            Some("crate-wide allow("@ + attr_of(e.attrs, "lint"@) + ")"@)
        } else {
            None
        },
        Probe::Undocumented => if is_crate_silence(e) && table::lookup(
            e.attrs,
            "documented"@,
        ) is None {
            Some("allow("@ + attr_of(e.attrs, "lint"@) + ") with no reason"@)
        } else {
            None
        },
        Probe::ExitInLibrary => if e.kind == EdgeKind::EffectExec && of_product(e) && (match package_in(
            e.from,
        ) {
            Some(name) => table::lookup(ground.programs, name) is None,
            None => false,
        }) {
            Some("library ends the process"@)
        } else {
            None
        },
        Probe::EnvSpawn => if is_spawn(e) && attr_of(e.attrs, "via"@) == "env"@ {
            Some("spawn target from $"@ + attr_of(e.attrs, "env_var"@))
        } else {
            None
        },
        Probe::Shell => if is_spawn(e) && is_shell(e.to) {
            Some("spawns "@ + text::shorn_start(e.to, "proc:"@))
        } else {
            None
        },
        Probe::Unproven => {
            let via = attr_of(e.attrs, "via"@);
            if is_aimed(e) && via.len() > 0 && via != "literal"@ {
                Some("target unproven ("@ + via + ")"@)
            } else {
                None
            }
        },
    }
}

fn crate_silence(e: &Edge) -> (r: bool)
    ensures
        r == is_crate_silence(e.deep_view()),
{
    e.kind == EdgeKind::Silences && text::same(attr(&e.attrs, "scope").as_str(), "crate")
}

fn shell(to: &str) -> (r: bool)
    ensures
        r == is_shell(to@),
{
    text::contains(to, "zsh") || text::contains(to, "bash") || text::contains(to, "/sh")
        || text::contains(to, "cmd") || text::contains(to, "powershell")
}

fn look(probe: Probe, e: &Edge, ground: &Ground) -> (what: Option<String>)
    ensures
        what.deep_view() == probed(probe, e.deep_view(), ground.deep_view()),
{
    match probe {
        Probe::ResultString => {
            if e.kind == EdgeKind::Returns {
                let squeezed = text::replace(e.to.0.as_str(), ' ', text::empty().as_str());
                if text::contains(squeezed.as_str(), ",String>") && ground.in_product(
                    e.from.0.as_str(),
                ) {
                    return Some("returns Result<_, String>".to_owned());
                }
            }
        },
        Probe::BroadSilence => {
            if crate_silence(e) && text::same(attr(&e.attrs, "breadth").as_str(), "broad") {
                return Some(
                    text::cat3("crate-wide allow(", attr(&e.attrs, "lint").as_str(), ")"),
                );
            }
        },
        Probe::Undocumented => {
            if crate_silence(e) && json::field(&e.attrs, "documented").is_none() {
                return Some(
                    text::cat3("allow(", attr(&e.attrs, "lint").as_str(), ") with no reason"),
                );
            }
        },
        Probe::ExitInLibrary => {
            if e.kind == EdgeKind::EffectExec && !has_test_role(&e.attrs) {
                if let Some(name) = package_of(e.from.0.as_str()) {
                    if !ground.programs.contains(name.as_str()) {
                        return Some("library ends the process".to_owned());
                    }
                }
            }
        },
        Probe::EnvSpawn => {
            if e.kind == EdgeKind::Spawns && !has_test_role(&e.attrs) && text::same(
                attr(&e.attrs, "via").as_str(),
                "env",
            ) {
                return Some(
                    text::cat("spawn target from $", attr(&e.attrs, "env_var").as_str()),
                );
            }
        },
        Probe::Shell => {
            if e.kind == EdgeKind::Spawns && !has_test_role(&e.attrs) && shell(e.to.0.as_str()) {
                proof {
                    reveal_strlit("proc:");
                }
                let name = text::trim_start_matches(e.to.0.as_str(), "proc:");
                return Some(text::cat("spawns ", name.as_str()));
            }
        },
        Probe::Unproven => {
            if (e.kind == EdgeKind::Spawns || e.kind == EdgeKind::ReadsEnv) && !has_test_role(
                &e.attrs,
            ) {
                let via = attr(&e.attrs, "via");
                if !text::is_empty(via.as_str()) && !text::same(via.as_str(), "literal") {
                    return Some(text::cat3("target unproven (", via.as_str(), ")"));
                }
            }
        },
    }
    None
}

/// The findings among the first `n` edges.
pub open spec fn findings_in(probe: Probe, edges: Seq<EdgeV>, ground: GroundV, n: nat) -> Seq<
    FindingV,
>
    decreases n,
{
    if n == 0 {
        seq![]
    } else {
        let before = findings_in(probe, edges, ground, (n - 1) as nat);
        match probed(probe, edges[n - 1], ground) {
            Some(what) => if ground.covers(edges[n - 1]) {
                before.push(found(what, edges[n - 1]))
            } else {
                before
            },
            None => before,
        }
    }
}

fn find(probe: Probe, edges: &Vec<Edge>, ground: &Ground) -> (out: Vec<Finding>)
    ensures
        out.deep_view() == findings_in(
            probe,
            edges.deep_view(),
            ground.deep_view(),
            edges@.len(),
        ),
{
    let mut out: Vec<Finding> = Vec::new();
    assert(out.deep_view() =~= seq![]);
    let mut i: usize = 0;
    while i < edges.len()
        invariant
            i <= edges.len(),
            out.deep_view() == findings_in(
                probe,
                edges.deep_view(),
                ground.deep_view(),
                i as nat,
            ),
        decreases edges.len() - i,
    {
        assert(edges.deep_view()[i as int] == edges@[i as int].deep_view());
        if let Some(what) = look(probe, &edges[i], ground) {
            if ground.covers(&edges[i]) {
                text::push(&mut out, finding(what, &edges[i]));
            }
        }
        i += 1;
    }
    out
}

/// The symbols of the product among the first `n` nodes, by the fingerprint of
/// their bodies.
pub open spec fn bodies(nodes: Seq<NodeV>, ground: GroundV, n: nat) -> Seq<(Text, Seq<Text>)>
    decreases n,
{
    if n == 0 {
        seq![]
    } else {
        let before = bodies(nodes, ground, (n - 1) as nat);
        match json::str_of(table::lookup(nodes[n - 1].attrs, "body"@)) {
            Some(hash) => if ground.in_product(nodes[n - 1].id) && ground.measures(nodes[n - 1].id) {
                table::with_item(before, hash, nodes[n - 1].id)
            } else {
                before
            },
            None => before,
        }
    }
}

/// The first `n` of those that share a body, without the first: three copies
/// of one body are two things to delete.
pub open spec fn copies_in(out: Seq<FindingV>, ids: Seq<Text>, n: nat) -> Seq<FindingV>
    decreases n,
{
    if n <= 1 {
        out
    } else {
        copies_in(out, ids, (n - 1) as nat).push(
            FindingV {
                what: "copy of "@ + text::shorn_start(ids[0], "sym:"@),
                file: text::shorn_start(ids[n - 1], "sym:"@),
                line: 0,
            },
        )
    }
}

pub open spec fn all_copies(groups: Seq<(Text, Seq<Text>)>, n: nat) -> Seq<FindingV>
    decreases n,
{
    if n == 0 {
        seq![]
    } else {
        copies_in(all_copies(groups, (n - 1) as nat), groups[n - 1].1, groups[n - 1].1.len())
    }
}

fn group_bodies(nodes: &Vec<Node>, ground: &Ground) -> (groups: Table<Vec<String>>)
    ensures
        groups.deep_view() == bodies(nodes.deep_view(), ground.deep_view(), nodes@.len()),
{
    let mut groups: Table<Vec<String>> = Table::new();
    let mut i: usize = 0;
    while i < nodes.len()
        invariant
            i <= nodes.len(),
            groups.deep_view() == bodies(nodes.deep_view(), ground.deep_view(), i as nat),
        decreases nodes.len() - i,
    {
        let node = &nodes[i];
        assert(nodes.deep_view()[i as int] == node.deep_view());
        if let Some(Json::Str(hash)) = json::field(&node.attrs, "body") {
            let id = node.id.0.as_str();
            if ground.in_product(id) && ground.measures(id) {
                table::add_item(&mut groups, hash.as_str(), node.id.0.clone());
            }
        }
        i += 1;
    }
    groups
}

fn find_copies(groups: &Table<Vec<String>>) -> (out: Vec<Finding>)
    ensures
        out.deep_view() == all_copies(groups.deep_view(), groups.deep_view().len()),
{
    proof {
        reveal_strlit("sym:");
    }
    let mut out: Vec<Finding> = Vec::new();
    assert(out.deep_view() =~= seq![]);
    let end: usize = groups.len();
    let mut i: usize = 0;
    while i < end
        invariant
            i <= end == groups.deep_view().len(),
            "sym:"@.len() > 0,
            out.deep_view() == all_copies(groups.deep_view(), i as nat),
        decreases end - i,
    {
        let ids = groups.value_at(i);
        let ghost start = out.deep_view();
        let mut j: usize = 1;
        while j < ids.len()
            invariant
                1 <= j,
                j <= ids.len() || j == 1,
                "sym:"@.len() > 0,
                out.deep_view() == copies_in(start, ids.deep_view(), j as nat),
            decreases ids.len() - j,
        {
            let first = text::trim_start_matches(ids[0].as_str(), "sym:");
            text::push(
                &mut out,
                Finding {
                    what: text::cat("copy of ", first.as_str()),
                    file: text::trim_start_matches(ids[j].as_str(), "sym:"),
                    line: 0,
                },
            );
            j += 1;
        }
        assert(out.deep_view() == copies_in(start, ids.deep_view(), ids.deep_view().len()));
        i += 1;
    }
    out
}

// --- shares ------------------------------------------------------------------

pub open spec fn is_param(e: EdgeV, ground: GroundV) -> bool {
    e.kind == EdgeKind::Param && ground.in_product(e.from) && ground.covers(e)
}

pub open spec fn is_bare(to: Text) -> bool {
    to == "type:&str"@ || to == "type:String"@ || to == "type:&String"@
}

/// How many of the first `n` edges are parameters, and how many of those are
/// bare strings.
pub open spec fn params_in(edges: Seq<EdgeV>, ground: GroundV, n: nat) -> (nat, nat)
    decreases n,
{
    if n == 0 {
        (0, 0)
    } else {
        let (bare, all) = params_in(edges, ground, (n - 1) as nat);
        if is_param(edges[n - 1], ground) {
            if is_bare(edges[n - 1].to) {
                (bare + 1, all + 1)
            } else {
                (bare, all + 1)
            }
        } else {
            (bare, all)
        }
    }
}

pub open spec fn aimed_in(edges: Seq<EdgeV>, ground: GroundV, n: nat) -> nat
    decreases n,
{
    if n == 0 {
        0
    } else {
        aimed_in(edges, ground, (n - 1) as nat) + if is_aimed(edges[n - 1]) && ground.covers(
            edges[n - 1],
        ) {
            1nat
        } else {
            0nat
        }
    }
}

fn count_params(edges: &Vec<Edge>, ground: &Ground) -> (r: (u64, u64))
    ensures
        (r.0 as nat, r.1 as nat) == params_in(
            edges.deep_view(),
            ground.deep_view(),
            edges@.len(),
        ),
{
    let mut bare: usize = 0;
    let mut all: usize = 0;
    let mut i: usize = 0;
    while i < edges.len()
        invariant
            i <= edges.len(),
            bare <= all <= i,
            (bare as nat, all as nat) == params_in(
                edges.deep_view(),
                ground.deep_view(),
                i as nat,
            ),
        decreases edges.len() - i,
    {
        let e = &edges[i];
        assert(edges.deep_view()[i as int] == e.deep_view());
        if e.kind == EdgeKind::Param && ground.in_product(e.from.0.as_str()) && ground.covers(e) {
            let to = e.to.0.as_str();
            if text::same(to, "type:&str") || text::same(to, "type:String") || text::same(
                to,
                "type:&String",
            ) {
                bare += 1;
            }
            all += 1;
        }
        i += 1;
    }
    (bare as u64, all as u64)
}

fn count_aimed(edges: &Vec<Edge>, ground: &Ground) -> (n: u64)
    ensures
        n == aimed_in(edges.deep_view(), ground.deep_view(), edges@.len()),
{
    let mut n: usize = 0;
    let mut i: usize = 0;
    while i < edges.len()
        invariant
            i <= edges.len(),
            n <= i,
            n == aimed_in(edges.deep_view(), ground.deep_view(), i as nat),
        decreases edges.len() - i,
    {
        let e = &edges[i];
        assert(edges.deep_view()[i as int] == e.deep_view());
        if (e.kind == EdgeKind::Spawns || e.kind == EdgeKind::ReadsEnv) && !has_test_role(
            &e.attrs,
        ) && ground.covers(e) {
            n += 1;
        }
        i += 1;
    }
    n as u64
}

// --- all of it ---------------------------------------------------------------

pub open spec fn with_count(
    values: Seq<(Text, MeasureV)>,
    id: Text,
    findings: Seq<FindingV>,
) -> Seq<(Text, MeasureV)> {
    table::put(
        values,
        id,
        MeasureV { amount: Amount::Count(findings.len() as u64), findings },
    )
}

fn add_count(values: &mut Table<Measure>, id: &str, findings: Vec<Finding>)
    ensures
        final(values).deep_view() == with_count(
            old(values).deep_view(),
            id@,
            findings.deep_view(),
        ),
{
    let amount = Amount::Count(findings.len() as u64);
    let _ = values.insert(id.to_owned(), Measure { amount, findings });
}

/// The counts that are held against the size of the code.
pub open spec fn densities(stream: StreamV, exclude: Seq<Text>) -> Seq<(Text, MeasureV)> {
    let ground = ground_of(stream, exclude);
    let edges = stream.edges;
    let n = edges.len();
    let groups = bodies(stream.nodes, ground, stream.nodes.len());
    let values = with_count(
        seq![],
        "result-string-density"@,
        findings_in(Probe::ResultString, edges, ground, n),
    );
    let values = with_count(
        values,
        "broad-lint-silencing"@,
        findings_in(Probe::BroadSilence, edges, ground, n),
    );
    let values = with_count(
        values,
        "undocumented-suppressions"@,
        findings_in(Probe::Undocumented, edges, ground, n),
    );
    let values = with_count(
        values,
        "exit-in-library"@,
        findings_in(Probe::ExitInLibrary, edges, ground, n),
    );
    let values = with_count(
        values,
        "env-controlled-spawn"@,
        findings_in(Probe::EnvSpawn, edges, ground, n),
    );
    let values = with_count(
        values,
        "shell-invocation"@,
        findings_in(Probe::Shell, edges, ground, n),
    );
    with_count(values, "duplicated-bodies"@, all_copies(groups, groups.len()))
}

/// What a stream measures, without anything that stands in an excluded path.
pub open spec fn metrics_of(stream: StreamV, exclude: Seq<Text>) -> MetricsV {
    let ground = ground_of(stream, exclude);
    let edges = stream.edges;
    let n = edges.len();
    let (bare, params) = params_in(edges, ground, n);
    let unproven = findings_in(Probe::Unproven, edges, ground, n);
    let values = table::put(
        densities(stream, exclude),
        "bare-string-params"@,
        MeasureV {
            amount: Amount::Share { part: bare as u64, whole: params as u64 },
            findings: seq![],
        },
    );
    MetricsV {
        lines: product_lines(stream.nodes, ground.tests, exclude, stream.nodes.len()) as u64,
        values: table::put(
            values,
            "unproven-spawn-targets"@,
            MeasureV {
                amount: Amount::Share {
                    part: unproven.len() as u64,
                    whole: aimed_in(edges, ground, n) as u64,
                },
                findings: unproven,
            },
        ),
    }
}

impl Metrics {
    pub fn get(&self, id: &str) -> (m: Option<&Measure>)
        ensures
            m.deep_view() == table::lookup(self.deep_view().values, id@),
    {
        self.values.get(id)
    }

    pub fn compute(stream: &Stream, exclude: &Vec<String>) -> (metrics: Metrics)
        ensures
            metrics.deep_view() == metrics_of(stream.deep_view(), exclude.deep_view()),
    {
        let ground = Ground::of(stream, exclude);
        let edges = &stream.edges;
        let mut values: Table<Measure> = Table::new();
        add_count(
            &mut values,
            "result-string-density",
            find(Probe::ResultString, edges, &ground),
        );
        add_count(
            &mut values,
            "broad-lint-silencing",
            find(Probe::BroadSilence, edges, &ground),
        );
        add_count(
            &mut values,
            "undocumented-suppressions",
            find(Probe::Undocumented, edges, &ground),
        );
        add_count(&mut values, "exit-in-library", find(Probe::ExitInLibrary, edges, &ground));
        add_count(&mut values, "env-controlled-spawn", find(Probe::EnvSpawn, edges, &ground));
        add_count(&mut values, "shell-invocation", find(Probe::Shell, edges, &ground));
        let groups = group_bodies(&stream.nodes, &ground);
        add_count(&mut values, "duplicated-bodies", find_copies(&groups));
        let (bare, params) = count_params(edges, &ground);
        let none: Vec<Finding> = Vec::new();
        assert(none.deep_view() =~= seq![]);
        let _ = values.insert(
            "bare-string-params".to_owned(),
            Measure { amount: Amount::Share { part: bare, whole: params }, findings: none },
        );
        let unproven = find(Probe::Unproven, edges, &ground);
        let aimed = Amount::Share { part: unproven.len() as u64, whole: count_aimed(edges, &ground) };
        let _ = values.insert(
            "unproven-spawn-targets".to_owned(),
            Measure { amount: aimed, findings: unproven },
        );
        Metrics { lines: count_lines(&stream.nodes, &ground.tests, exclude), values }
    }
}

/// Nothing is found in an excluded path.
pub proof fn lemma_excluded_unseen(
    probe: Probe,
    stream: StreamV,
    exclude: Seq<Text>,
    n: nat,
    i: int,
)
    requires
        n <= stream.edges.len(),
        0 <= i < findings_in(probe, stream.edges, ground_of(stream, exclude), n).len(),
        findings_in(probe, stream.edges, ground_of(stream, exclude), n)[i].file.len() > 0,
    ensures
        !excluded(
            exclude,
            findings_in(probe, stream.edges, ground_of(stream, exclude), n)[i].file,
        ),
    decreases n,
{
    let ground = ground_of(stream, exclude);
    let before = findings_in(probe, stream.edges, ground, (n - 1) as nat);
    if i < before.len() {
        lemma_excluded_unseen(probe, stream, exclude, (n - 1) as nat, i);
    }
}

// --- what is found, and what is not ------------------------------------------

/// What a probe finds are the edges that it makes something of and that are not
/// left out, in their order, each where it was first seen.
pub proof fn lemma_found(probe: Probe, edges: Seq<EdgeV>, ground: GroundV, n: nat)
    requires
        n <= edges.len(),
    ensures
        findings_in(probe, edges, ground, n) == edges.take(n as int).filter(
            |e: EdgeV| probed(probe, e, ground) is Some && ground.covers(e),
        ).map_values(
            |e: EdgeV|
                FindingV {
                    what: probed(probe, e, ground).unwrap(),
                    file: if e.ev.len() > 0 {
                        e.ev[0].file
                    } else {
                        seq![]
                    },
                    line: if e.ev.len() > 0 {
                        e.ev[0].line.0
                    } else {
                        0
                    },
                },
        ),
    decreases n,
{
    reveal(Seq::filter);
    let seen = |e: EdgeV| probed(probe, e, ground) is Some && ground.covers(e);
    let told = |e: EdgeV|
        FindingV {
            what: probed(probe, e, ground).unwrap(),
            file: if e.ev.len() > 0 {
                e.ev[0].file
            } else {
                seq![]
            },
            line: if e.ev.len() > 0 {
                e.ev[0].line.0
            } else {
                0
            },
        };
    let all = edges.take(n as int);
    if n > 0 {
        lemma_found(probe, edges, ground, (n - 1) as nat);
        let front = edges.take(n - 1);
        assert(all.drop_last() =~= front);
        assert(all.last() == edges[n - 1]);
        if seen(edges[n - 1]) {
            assert(front.filter(seen).push(edges[n - 1]).map_values(told) =~= front.filter(
                seen,
            ).map_values(told).push(told(edges[n - 1])));
        }
    } else {
        assert(findings_in(probe, edges, ground, n) =~= all.filter(seen).map_values(told));
    }
}

/// Whether an edge has a word under a key.
pub open spec fn says(e: EdgeV, key: Text, word: Text) -> bool {
    table::lookup(e.attrs, key) == Some(JsonV::Str(word))
}

/// A `Result` whose error is a bare string, and only that, is found where a
/// product function returns it: a type that reads, without its blanks, as
/// something with `,String>` in it.
pub proof fn lemma_result_strings(e: EdgeV, ground: GroundV)
    ensures
        probed(Probe::ResultString, e, ground) is Some ==> e.kind == EdgeKind::Returns
            && ground.in_product(e.from) && exists|head: Text, tail: Text|
            e.to.filter(|c: char| c != ' ') == #[trigger] (head + ",String>"@ + tail),
        forall|head: Text, tail: Text|
            e.kind == EdgeKind::Returns && e.to.filter(|c: char| c != ' ') == #[trigger] (head
                + ",String>"@ + tail) && ground.in_product(e.from) ==> probed(
                Probe::ResultString,
                e,
                ground,
            ) == Some("returns Result<_, String>"@),
{
    let squeezed = e.to.filter(|c: char| c != ' ');
    text::lemma_without(e.to, ' ');
    let part = ",String>"@;
    if text::has_part(squeezed, part) {
        let i = choose|i: int| text::occurs_at(squeezed, part, i);
        let head = squeezed.take(i);
        let tail = squeezed.skip(i + part.len());
        assert(squeezed =~= head + part + tail);
    }
    assert forall|head: Text, tail: Text|
        e.kind == EdgeKind::Returns && squeezed == #[trigger] (head + part + tail)
            && ground.in_product(e.from) implies probed(Probe::ResultString, e, ground) == Some(
        "returns Result<_, String>"@,
    ) by {
        let at = head.len() as int;
        assert(squeezed.subrange(at, at + part.len()) =~= part);
        assert(text::occurs_at(squeezed, part, at));
    }
}

/// What is silenced for a whole crate is found where it is broad, and where
/// nothing says why.
pub proof fn lemma_silences(e: EdgeV, ground: GroundV, lint: Text)
    requires
        says(e, "lint"@, lint),
    ensures
        probed(Probe::BroadSilence, e, ground) == (if e.kind == EdgeKind::Silences && says(
            e,
            "scope"@,
            "crate"@,
        ) && says(e, "breadth"@, "broad"@) {
            Some("crate-wide allow("@ + lint + ")"@)
        } else {
            None
        }),
        probed(Probe::Undocumented, e, ground) == (if e.kind == EdgeKind::Silences && says(
            e,
            "scope"@,
            "crate"@,
        ) && table::lookup(e.attrs, "documented"@) is None {
            Some("allow("@ + lint + ") with no reason"@)
        } else {
            None
        }),
{
    reveal_strlit("crate");
    reveal_strlit("broad");
    assert("crate"@.len() == 5 && "broad"@.len() == 5);
    assert(attr_of(e.attrs, "scope"@) == "crate"@ <==> says(e, "scope"@, "crate"@));
    assert(attr_of(e.attrs, "breadth"@) == "broad"@ <==> says(e, "breadth"@, "broad"@));
}

/// Ending the process is found where a symbol of a package does it that builds
/// no program, outside its tests.
pub proof fn lemma_exits(e: EdgeV, ground: GroundV, package: Text, rest: Text)
    requires
        e.from == "sym:"@ + (package + "::"@ + rest),
        !text::has_part(package, ":"@),
    ensures
        probed(Probe::ExitInLibrary, e, ground) is Some <==> e.kind == EdgeKind::EffectExec && !says(
            e,
            "role"@,
            "test"@,
        ) && table::lookup(ground.programs, package) is None,
{
    lemma_package_named(package, rest);
}

/// A program that the environment chooses, a shell that is started, and a target
/// that nobody proved, are found outside tests alone.
pub proof fn lemma_spawns(e: EdgeV, ground: GroundV)
    ensures
        probed(Probe::EnvSpawn, e, ground) is Some <==> e.kind == EdgeKind::Spawns && !says(
            e,
            "role"@,
            "test"@,
        ) && says(e, "via"@, "env"@),
        forall|var: Text|
            #[trigger] says(e, "env_var"@, var) && probed(Probe::EnvSpawn, e, ground) is Some
                ==> probed(Probe::EnvSpawn, e, ground) == Some("spawn target from $"@ + var),
        probed(Probe::Shell, e, ground) is Some <==> e.kind == EdgeKind::Spawns && !says(
            e,
            "role"@,
            "test"@,
        ) && (exists|i: int|
            #![trigger text::occurs_at(e.to, "zsh"@, i)]
            #![trigger text::occurs_at(e.to, "bash"@, i)]
            #![trigger text::occurs_at(e.to, "/sh"@, i)]
            #![trigger text::occurs_at(e.to, "cmd"@, i)]
            #![trigger text::occurs_at(e.to, "powershell"@, i)]
            text::occurs_at(e.to, "zsh"@, i) || text::occurs_at(e.to, "bash"@, i)
                || text::occurs_at(e.to, "/sh"@, i) || text::occurs_at(e.to, "cmd"@, i)
                || text::occurs_at(e.to, "powershell"@, i)),
        forall|name: Text|
            e.to == #[trigger] ("proc:"@ + name) && !text::has_prefix(name, "proc:"@) && probed(
                Probe::Shell,
                e,
                ground,
            ) is Some ==> probed(Probe::Shell, e, ground) == Some("spawns "@ + name),
        probed(Probe::Unproven, e, ground) is Some <==> (e.kind == EdgeKind::Spawns || e.kind
            == EdgeKind::ReadsEnv) && !says(e, "role"@, "test"@) && (exists|via: Text|
            #[trigger] says(e, "via"@, via) && via.len() > 0 && via != "literal"@),
        forall|via: Text|
            #[trigger] says(e, "via"@, via) && probed(Probe::Unproven, e, ground) is Some
                ==> probed(Probe::Unproven, e, ground) == Some("target unproven ("@ + via + ")"@),
{
    reveal_strlit("env");
    reveal_strlit("proc:");
    let via = attr_of(e.attrs, "via"@);
    assert("env"@.len() == 3);
    assert(via == "env"@ <==> says(e, "via"@, "env"@));
    if probed(Probe::Unproven, e, ground) is Some {
        assert(says(e, "via"@, via));
    }
    assert forall|name: Text|
        e.to == #[trigger] ("proc:"@ + name) && !text::has_prefix(name, "proc:"@) && probed(
            Probe::Shell,
            e,
            ground,
        ) is Some implies probed(Probe::Shell, e, ground) == Some("spawns "@ + name) by {
        assert(e.to.subrange(0, 5) =~= "proc:"@);
        assert(e.to.skip(5) =~= name);
        reveal_with_fuel(text::shorn_start, 3);
    }
}

proof fn lemma_symbol_file(edges: Seq<EdgeV>, n: nat, symbol: Text)
    requires
        n <= edges.len(),
    ensures
        table::lookup(symbol_files(edges, n), symbol) matches Some(file) ==> exists|k: int|
            0 <= k < n && (#[trigger] edges[k]).kind == EdgeKind::Contains && edges[k].from == file
                && edges[k].to == symbol,
    decreases n,
{
    if n > 0 {
        lemma_symbol_file(edges, (n - 1) as nat, symbol);
        let e = edges[n - 1];
        table::lemma_put_lookup(symbol_files(edges, (n - 1) as nat), e.to, e.from, symbol);
        if e.kind == EdgeKind::Contains && e.to == symbol {
            assert(edges[n - 1].from == e.from);
        }
    }
}

proof fn lemma_test_file(nodes: Seq<NodeV>, n: nat, id: Text)
    requires
        n <= nodes.len(),
    ensures
        table::lookup(test_files(nodes, n), id) is Some <==> exists|k: int|
            0 <= k < n && (#[trigger] nodes[k]).kind == NodeKind::File && nodes[k].id == id
                && table::lookup(nodes[k].attrs, "role"@) == Some(JsonV::Str("test"@)),
    decreases n,
{
    if n > 0 {
        let m = (n - 1) as nat;
        lemma_test_file(nodes, m, id);
        let node = nodes[n - 1];
        table::lemma_put_lookup(test_files(nodes, m), node.id, (), id);
        if is_test_file(node) && node.id == id {
            assert(nodes[n - 1].kind == NodeKind::File);
        }
    }
}

/// What no test file contains is part of the product.
pub proof fn lemma_product(stream: StreamV, exclude: Seq<Text>, symbol: Text)
    requires
        forall|k: int, f: int|
            0 <= k < stream.edges.len() && 0 <= f < stream.nodes.len() && (
            #[trigger] stream.edges[k]).kind == EdgeKind::Contains && stream.edges[k].to == symbol
                && stream.edges[k].from == (#[trigger] stream.nodes[f]).id && stream.nodes[f].kind
                == NodeKind::File ==> table::lookup(stream.nodes[f].attrs, "role"@) != Some(
                JsonV::Str("test"@),
            ),
    ensures
        ground_of(stream, exclude).in_product(symbol),
{
    let ground = ground_of(stream, exclude);
    lemma_symbol_file(stream.edges, stream.edges.len(), symbol);
    if let Some(file) = table::lookup(ground.files, symbol) {
        lemma_test_file(stream.nodes, stream.nodes.len(), file);
    }
}

/// What a test file alone contains is not.
pub proof fn lemma_not_product(stream: StreamV, exclude: Seq<Text>, symbol: Text, k: int, f: int)
    requires
        0 <= k < stream.edges.len(),
        0 <= f < stream.nodes.len(),
        stream.edges[k].kind == EdgeKind::Contains,
        stream.edges[k].to == symbol,
        stream.edges[k].from == stream.nodes[f].id,
        text::has_prefix(symbol, "sym:"@),
        text::has_prefix(stream.nodes[f].id, "file:"@),
        stream.nodes[f].kind == NodeKind::File,
        table::lookup(stream.nodes[f].attrs, "role"@) == Some(JsonV::Str("test"@)),
        forall|j: int|
            k < j < stream.edges.len() && (#[trigger] stream.edges[j]).kind == EdgeKind::Contains
                ==> stream.edges[j].to != symbol,
    ensures
        !ground_of(stream, exclude).in_product(symbol),
{
    lemma_contained(stream.edges, stream.edges.len(), k);
    assert(stream.nodes[f].id == stream.edges[k].from);
    lemma_test_file(stream.nodes, stream.nodes.len(), stream.edges[k].from);
}

proof fn lemma_contained(edges: Seq<EdgeV>, n: nat, k: int)
    requires
        0 <= k < n <= edges.len(),
        edges[k].kind == EdgeKind::Contains,
        text::has_prefix(edges[k].to, "sym:"@),
        text::has_prefix(edges[k].from, "file:"@),
        forall|j: int|
            k < j < n && (#[trigger] edges[j]).kind == EdgeKind::Contains ==> edges[j].to
                != edges[k].to,
    ensures
        table::lookup(symbol_files(edges, n), edges[k].to) == Some(edges[k].from),
    decreases n,
{
    let m = (n - 1) as nat;
    let e = edges[n - 1];
    table::lemma_put_lookup(symbol_files(edges, m), e.to, e.from, edges[k].to);
    if k < m {
        lemma_contained(edges, m, k);
    }
}

/// A package builds a program where it contains one.
pub proof fn lemma_programs(edges: Seq<EdgeV>, n: nat, package: Text)
    requires
        n <= edges.len(),
    ensures
        table::lookup(programs(edges, n), package) is Some <==> exists|k: int|
            0 <= k < n && (#[trigger] edges[k]).kind == EdgeKind::Contains && edges[k].from
                == "pkg:"@ + package && text::has_prefix(edges[k].to, "bin:"@),
    decreases n,
{
    if n > 0 {
        let m = (n - 1) as nat;
        lemma_programs(edges, m, package);
        let e = edges[n - 1];
        reveal_strlit("pkg:");
        if text::has_prefix(e.from, "pkg:"@) {
            let name = e.from.skip(4);
            assert(e.from =~= "pkg:"@ + name);
            table::lemma_put_lookup(programs(edges, m), name, (), package);
            assert(("pkg:"@ + package).skip(4) =~= package);
        } else {
            assert(("pkg:"@ + package).subrange(0, 4) =~= "pkg:"@);
        }
        if e.kind == EdgeKind::Contains && e.from == "pkg:"@ + package && text::has_prefix(
            e.to,
            "bin:"@,
        ) {
            assert(edges[n - 1].kind == EdgeKind::Contains);
        }
    }
}

/// Nothing is left out where nothing is to be.
pub proof fn lemma_nothing_left_out(stream: StreamV, e: EdgeV)
    ensures
        ground_of(stream, seq![]).covers(e),
        ground_of(stream, seq![]).measures(e.from),
{
}

/// Parameters are counted where the product has them, and as bare where their
/// type is one of the three spellings of a string; targets likewise.
pub proof fn lemma_shares(edges: Seq<EdgeV>, ground: GroundV, n: nat)
    requires
        n <= edges.len(),
    ensures
        params_in(edges, ground, n).1 == edges.take(n as int).filter(
            |e: EdgeV|
                e.kind == EdgeKind::Param && ground.in_product(e.from) && ground.covers(e),
        ).len(),
        params_in(edges, ground, n).0 == edges.take(n as int).filter(
            |e: EdgeV|
                e.kind == EdgeKind::Param && ground.in_product(e.from) && ground.covers(e) && (e.to
                    == "type:&str"@ || e.to == "type:String"@ || e.to == "type:&String"@),
        ).len(),
        aimed_in(edges, ground, n) == edges.take(n as int).filter(
            |e: EdgeV|
                (e.kind == EdgeKind::Spawns || e.kind == EdgeKind::ReadsEnv) && !says(
                    e,
                    "role"@,
                    "test"@,
                ) && ground.covers(e),
        ).len(),
    decreases n,
{
    reveal(Seq::filter);
    if n > 0 {
        lemma_shares(edges, ground, (n - 1) as nat);
        assert(edges.take(n as int).drop_last() =~= edges.take(n - 1));
        assert(edges.take(n as int).last() == edges[n - 1]);
    }
}

/// The lines of the product are those of every file that is no test and not left
/// out, added up as far as they can be counted.
pub proof fn lemma_lines_added(
    nodes: Seq<NodeV>,
    tests: Seq<(Text, ())>,
    exclude: Seq<Text>,
    n: nat,
)
    requires
        n <= nodes.len(),
    ensures
        ({
            let counts = |x: NodeV|
                x.kind == NodeKind::File && table::lookup(tests, x.id) is None && !(exists|i: int|
                    0 <= i < exclude.len() && text::has_prefix(
                        attr_of(x.attrs, "path"@),
                        #[trigger] exclude[i],
                    ));
            let lines = nodes.take(n as int).filter(counts).map_values(
                |x: NodeV|
                    match table::lookup(x.attrs, "lines"@) {
                        Some(JsonV::Whole(lines)) => lines as int,
                        _ => 0,
                    },
            );
            let sum = lines.fold_left(0int, |a: int, b: int| a + b);
            product_lines(nodes, tests, exclude, n) == if sum <= u64::MAX {
                sum
            } else {
                u64::MAX as int
            }
        }),
    decreases n,
{
    reveal(Seq::filter);
    let counts = |x: NodeV|
        x.kind == NodeKind::File && table::lookup(tests, x.id) is None && !(exists|i: int|
            0 <= i < exclude.len() && text::has_prefix(
                attr_of(x.attrs, "path"@),
                #[trigger] exclude[i],
            ));
    let value = |x: NodeV|
        match table::lookup(x.attrs, "lines"@) {
            Some(JsonV::Whole(lines)) => lines as int,
            _ => 0,
        };
    let all = nodes.take(n as int);
    if n > 0 {
        lemma_lines_added(nodes, tests, exclude, (n - 1) as nat);
        let front = nodes.take(n - 1);
        assert(all.drop_last() =~= front);
        assert(all.last() == nodes[n - 1]);
        if counts(nodes[n - 1]) {
            let lines = front.filter(counts).map_values(value);
            let more = front.filter(counts).push(nodes[n - 1]).map_values(value);
            assert(more =~= lines.push(value(nodes[n - 1])));
            assert(more.drop_last() =~= lines);
        }
    } else {
        assert(all.filter(counts).map_values(value) =~= seq![]);
    }
}

proof fn lemma_measure_set(
    values: Seq<(Text, MeasureV)>,
    id: Text,
    measure: MeasureV,
)
    ensures
        table::lookup(table::put(values, id, measure), id) == Some(measure),
        forall|other: Text|
            other != id ==> #[trigger] table::lookup(table::put(values, id, measure), other)
                == table::lookup(values, other),
{
    table::lemma_put_lookup(values, id, measure, id);
    assert forall|other: Text| other != id implies #[trigger] table::lookup(
        table::put(values, id, measure),
        other,
    ) == table::lookup(values, other) by {
        table::lemma_put_lookup(values, id, measure, other);
    }
}

/// Each rule is measured by what its own probe finds.
#[verifier::rlimit(40)]
pub proof fn lemma_measured(stream: StreamV, exclude: Seq<Text>)
    ensures
        ({
            let m = metrics_of(stream, exclude).values;
            let ground = ground_of(stream, exclude);
            let n = stream.edges.len();
            let hits = |probe: Probe| findings_in(probe, stream.edges, ground, n);
            let count = |found: Seq<FindingV>|
                Some(MeasureV { amount: Amount::Count(found.len() as u64), findings: found });
            &&& table::lookup(m, "result-string-density"@) == count(hits(Probe::ResultString))
            &&& table::lookup(m, "broad-lint-silencing"@) == count(hits(Probe::BroadSilence))
            &&& table::lookup(m, "undocumented-suppressions"@) == count(hits(Probe::Undocumented))
            &&& table::lookup(m, "exit-in-library"@) == count(hits(Probe::ExitInLibrary))
            &&& table::lookup(m, "env-controlled-spawn"@) == count(hits(Probe::EnvSpawn))
            &&& table::lookup(m, "shell-invocation"@) == count(hits(Probe::Shell))
            &&& table::lookup(m, "duplicated-bodies"@) == count(
                ({
                    let groups = bodies(stream.nodes, ground, stream.nodes.len());
                    all_copies(groups, groups.len())
                }),
            )
            &&& metrics_of(stream, exclude).lines == product_lines(
                stream.nodes,
                test_files(stream.nodes, stream.nodes.len()),
                exclude,
                stream.nodes.len(),
            ) as u64
            &&& table::lookup(m, "bare-string-params"@) == Some(
                MeasureV {
                    amount: Amount::Share {
                        part: params_in(stream.edges, ground, n).0 as u64,
                        whole: params_in(stream.edges, ground, n).1 as u64,
                    },
                    findings: seq![],
                },
            )
            &&& table::lookup(m, "unproven-spawn-targets"@) == Some(
                MeasureV {
                    amount: Amount::Share {
                        part: hits(Probe::Unproven).len() as u64,
                        whole: aimed_in(stream.edges, ground, n) as u64,
                    },
                    findings: hits(Probe::Unproven),
                },
            )
        }),
{
    reveal_strlit("result-string-density");
    reveal_strlit("broad-lint-silencing");
    reveal_strlit("undocumented-suppressions");
    reveal_strlit("exit-in-library");
    reveal_strlit("env-controlled-spawn");
    reveal_strlit("shell-invocation");
    reveal_strlit("duplicated-bodies");
    reveal_strlit("bare-string-params");
    reveal_strlit("unproven-spawn-targets");
    assert("broad-lint-silencing"@[0] == 'b' && "env-controlled-spawn"@[0] == 'e');
    let ground = ground_of(stream, exclude);
    let edges = stream.edges;
    let n = edges.len();
    let groups = bodies(stream.nodes, ground, stream.nodes.len());
    let count = |found: Seq<FindingV>|
        MeasureV { amount: Amount::Count(found.len() as u64), findings: found };
    let f0 = count(findings_in(Probe::ResultString, edges, ground, n));
    let f1 = count(findings_in(Probe::BroadSilence, edges, ground, n));
    let f2 = count(findings_in(Probe::Undocumented, edges, ground, n));
    let f3 = count(findings_in(Probe::ExitInLibrary, edges, ground, n));
    let f4 = count(findings_in(Probe::EnvSpawn, edges, ground, n));
    let f5 = count(findings_in(Probe::Shell, edges, ground, n));
    let f6 = count(all_copies(groups, groups.len()));
    let v0 = table::put(seq![], "result-string-density"@, f0);
    let v1 = table::put(v0, "broad-lint-silencing"@, f1);
    let v2 = table::put(v1, "undocumented-suppressions"@, f2);
    let v3 = table::put(v2, "exit-in-library"@, f3);
    let v4 = table::put(v3, "env-controlled-spawn"@, f4);
    let v5 = table::put(v4, "shell-invocation"@, f5);
    let v6 = table::put(v5, "duplicated-bodies"@, f6);
    assert(v6 == densities(stream, exclude));
    lemma_measure_set(seq![], "result-string-density"@, f0);
    lemma_measure_set(v0, "broad-lint-silencing"@, f1);
    lemma_measure_set(v1, "undocumented-suppressions"@, f2);
    lemma_measure_set(v2, "exit-in-library"@, f3);
    lemma_measure_set(v3, "env-controlled-spawn"@, f4);
    lemma_measure_set(v4, "shell-invocation"@, f5);
    lemma_measure_set(v5, "duplicated-bodies"@, f6);
    let (bare, params) = params_in(edges, ground, n);
    let share = MeasureV {
        amount: Amount::Share { part: bare as u64, whole: params as u64 },
        findings: seq![],
    };
    let v7 = table::put(v6, "bare-string-params"@, share);
    lemma_measure_set(v6, "bare-string-params"@, share);
    let unproven = findings_in(Probe::Unproven, edges, ground, n);
    let aimed = MeasureV {
        amount: Amount::Share {
            part: unproven.len() as u64,
            whole: aimed_in(edges, ground, n) as u64,
        },
        findings: unproven,
    };
    lemma_measure_set(v7, "unproven-spawn-targets"@, aimed);
}

/// Symbols of the product that have one body are grouped under it, in their order.
pub proof fn lemma_bodies(nodes: Seq<NodeV>, ground: GroundV, n: nat, hash: Text)
    requires
        n <= nodes.len(),
    ensures
        table::items_at(bodies(nodes, ground, n), hash) == nodes.take(n as int).filter(
            |x: NodeV|
                table::lookup(x.attrs, "body"@) == Some(JsonV::Str(hash)) && ground.in_product(x.id)
                    && ground.measures(x.id),
        ).map_values(|x: NodeV| x.id),
    decreases n,
{
    reveal(Seq::filter);
    let mine = |x: NodeV|
        table::lookup(x.attrs, "body"@) == Some(JsonV::Str(hash)) && ground.in_product(x.id)
            && ground.measures(x.id);
    let id = |x: NodeV| x.id;
    let all = nodes.take(n as int);
    if n > 0 {
        lemma_bodies(nodes, ground, (n - 1) as nat, hash);
        let before = bodies(nodes, ground, (n - 1) as nat);
        let node = nodes[n - 1];
        let front = nodes.take(n - 1);
        assert(all.drop_last() =~= front);
        assert(all.last() == node);
        if let Some(found) = json::str_of(table::lookup(node.attrs, "body"@)) {
            let more = table::items_at(before, found).push(node.id);
            table::lemma_put_lookup(before, found, more, hash);
        }
        if mine(node) {
            assert(front.filter(mine).push(node).map_values(id) =~= front.filter(mine).map_values(
                id,
            ).push(node.id));
        }
    } else {
        assert(all.filter(mine).map_values(id) =~= seq![]);
    }
}

/// Of those that have one body every one but the first is found, as a copy of the
/// first.
pub proof fn lemma_copies(out: Seq<FindingV>, ids: Seq<Text>, n: nat)
    requires
        n <= ids.len(),
    ensures
        copies_in(out, ids, n).len() == out.len() + if n > 1 {
            n - 1
        } else {
            0
        },
        forall|i: int| 0 <= i < out.len() ==> #[trigger] copies_in(out, ids, n)[i] == out[i],
        forall|i: int|
            1 <= i < n ==> {
                let f = #[trigger] copies_in(out, ids, n)[out.len() + i - 1];
                f.what == "copy of "@ + text::shorn_start(ids[0], "sym:"@) && f.file
                    == text::shorn_start(ids[i], "sym:"@)
            },
    decreases n,
{
    if n > 1 {
        lemma_copies(out, ids, (n - 1) as nat);
        let before = copies_in(out, ids, (n - 1) as nat);
        let after = copies_in(out, ids, n);
        assert forall|i: int| 1 <= i < n implies {
            let f = #[trigger] after[out.len() + i - 1];
            f.what == "copy of "@ + text::shorn_start(ids[0], "sym:"@) && f.file
                == text::shorn_start(ids[i], "sym:"@)
        } by {
            if i < n - 1 {
                assert(after[out.len() + i - 1] == before[out.len() + i - 1]);
            }
        }
    }
}

/// Bodies that are shared are found group by group.
pub proof fn lemma_all_copies(groups: Seq<(Text, Seq<Text>)>, n: nat)
    requires
        0 < n <= groups.len(),
    ensures
        all_copies(groups, n).len() == all_copies(groups, (n - 1) as nat).len() + if groups[n
            - 1].1.len() > 1 {
            groups[n - 1].1.len() - 1
        } else {
            0
        },
{
    lemma_copies(all_copies(groups, (n - 1) as nat), groups[n - 1].1, groups[n - 1].1.len());
}

}
