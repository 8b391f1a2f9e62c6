//! Turning a fact stream into the dataset an explorer renders.
//!
//! A reader needs the facts folded up: which files a crate owns, which crate
//! owns a type, which functions are worth looking at. That folding is here,
//! once, so that the same commit renders one way wherever it was processed.

use vstd::prelude::*;

use crate::facts::{Stream, StreamV};
use crate::json::{self, Json, JsonV};
use crate::schema::{Edge, EdgeKind, EdgeV, Node, NodeKind, NodeV, VERSION};
use crate::table::{self, Names, Table};
use crate::text::{self, Text};

verus! {

/// What a dataset says about itself: where the code came from, and how long it
/// took to get and to read it, in milliseconds.
pub struct Meta<'a> {
    pub repo: &'a str,
    pub branch: &'a str,
    pub remote: Option<&'a str>,
    pub commits_url: Option<&'a str>,
    pub analysed_ms: Option<u64>,
    pub fetched_ms: Option<u64>,
}

pub struct MetaV {
    pub repo: Text,
    pub branch: Text,
    pub remote: Option<Text>,
    pub commits_url: Option<Text>,
    pub analysed_ms: Option<u64>,
    pub fetched_ms: Option<u64>,
}

pub open spec fn shown(s: Option<&str>) -> Option<Text> {
    match s {
        Some(s) => Some(s@),
        None => None,
    }
}

impl<'a> DeepView for Meta<'a> {
    type V = MetaV;

    open spec fn deep_view(&self) -> MetaV {
        MetaV {
            repo: self.repo@,
            branch: self.branch@,
            remote: shown(self.remote),
            commits_url: shown(self.commits_url),
            analysed_ms: self.analysed_ms,
            fetched_ms: self.fetched_ms,
        }
    }
}

// --- small pieces of a dataset -----------------------------------------------

pub open spec fn text_or_null(s: Option<Text>) -> JsonV {
    match s {
        Some(s) => JsonV::Str(s),
        None => JsonV::Null,
    }
}

fn write_text(s: &Option<String>) -> (j: Json)
    ensures
        j.deep_view() == text_or_null(s.deep_view()),
{
    match s {
        Some(s) => Json::str(s.as_str()),
        None => Json::Null,
    }
}

fn write_str(s: Option<&str>) -> (j: Json)
    ensures
        j.deep_view() == text_or_null(shown(s)),
{
    match s {
        Some(s) => Json::str(s),
        None => Json::Null,
    }
}

pub open spec fn whole_or_null(n: Option<u64>) -> JsonV {
    match n {
        Some(n) => JsonV::Whole(n),
        None => JsonV::Null,
    }
}

fn write_whole(n: Option<u64>) -> (j: Json)
    ensures
        j.deep_view() == whole_or_null(n),
{
    match n {
        Some(n) => Json::Whole(n),
        None => Json::Null,
    }
}

pub open spec fn texts_json(list: Seq<Text>) -> JsonV {
    JsonV::List(Seq::new(list.len(), |i: int| JsonV::Str(list[i])))
}

fn write_texts(list: &Vec<String>) -> (j: Json)
    ensures
        j.deep_view() == texts_json(list.deep_view()),
{
    let mut items: Vec<Json> = Vec::new();
    let mut i: usize = 0;
    while i < list.len()
        invariant
            i <= list.len(),
            items.deep_view() == Seq::new(i as nat, |k: int| JsonV::Str(list.deep_view()[k])),
        decreases list.len() - i,
    {
        text::push(&mut items, Json::str(list[i].as_str()));
        assert(items.deep_view() =~= Seq::new(
            (i + 1) as nat,
            |k: int| JsonV::Str(list.deep_view()[k]),
        ));
        i += 1;
    }
    Json::list(items)
}

pub open spec fn counts_json(counts: Seq<(Text, u64)>) -> JsonV {
    JsonV::Object(Seq::new(counts.len(), |i: int| (counts[i].0, JsonV::Whole(counts[i].1))))
}

fn write_counts(tables: &Table<Table<u64>>, name: &str) -> (j: Json)
    ensures
        j.deep_view() == counts_json(table::items_at(tables.deep_view(), name@)),
{
    let mut fields = json::no_fields();
    if let Some(counts) = tables.get(name) {
        let ghost held = counts.deep_view();
        let end: usize = counts.len();
        let mut i: usize = 0;
        while i < end
            invariant
                i <= end == held.len(),
                held == counts.deep_view(),
                fields.deep_view() == Seq::new(i as nat, |k: int| (held[k].0, JsonV::Whole(held[k].1))),
            decreases end - i,
        {
            crate::json::add(
                &mut fields,
                counts.name_at(i).as_str(),
                Json::Whole(*counts.value_at(i)),
            );
            assert(fields.deep_view() =~= Seq::new(
                (i + 1) as nat,
                |k: int| (held[k].0, JsonV::Whole(held[k].1)),
            ));
            i += 1;
        }
    }
    assert(fields.deep_view() =~= counts_json(
        table::items_at(tables.deep_view(), name@),
    )->Object_0);
    Json::object(fields)
}

// --- where things are --------------------------------------------------------

/// The position of the last node of each id, among the first `n`.
pub open spec fn places(nodes: Seq<NodeV>, n: nat) -> Seq<(Text, usize)>
    decreases n,
{
    if n == 0 {
        seq![]
    } else {
        table::put(places(nodes, (n - 1) as nat), nodes[n - 1].id, (n - 1) as usize)
    }
}

/// What each thing is contained in, by the first `n` edges.
pub open spec fn parents(edges: Seq<EdgeV>, n: nat) -> Seq<(Text, Text)>
    decreases n,
{
    if n == 0 {
        seq![]
    } else {
        let before = parents(edges, (n - 1) as nat);
        if edges[n - 1].kind == EdgeKind::Contains {
            table::put(before, edges[n - 1].to, edges[n - 1].from)
        } else {
            before
        }
    }
}

pub struct Graph {
    pub places: Table<usize>,
    pub parents: Table<String>,
}

pub struct GraphV {
    pub places: Seq<(Text, usize)>,
    pub parents: Seq<(Text, Text)>,
}

impl DeepView for Graph {
    type V = GraphV;

    open spec fn deep_view(&self) -> GraphV {
        GraphV { places: self.places.deep_view(), parents: self.parents.deep_view() }
    }
}

pub open spec fn graph_of(s: StreamV) -> GraphV {
    GraphV {
        places: places(s.nodes, s.nodes.len()),
        parents: parents(s.edges, s.edges.len()),
    }
}

fn read_graph(stream: &Stream) -> (g: Graph)
    ensures
        g.deep_view() == graph_of(stream.deep_view()),
{
    let nodes = &stream.nodes;
    let edges = &stream.edges;
    let mut found: Table<usize> = Table::new();
    let mut i: usize = 0;
    while i < nodes.len()
        invariant
            i <= nodes.len(),
            found.deep_view() == places(nodes.deep_view(), i as nat),
        decreases nodes.len() - i,
    {
        assert(nodes.deep_view()[i as int] == nodes@[i as int].deep_view());
        let _ = found.insert(nodes[i].id.0.clone(), i);
        i += 1;
    }
    let mut above: Table<String> = Table::new();
    let mut j: usize = 0;
    while j < edges.len()
        invariant
            j <= edges.len(),
            above.deep_view() == parents(edges.deep_view(), j as nat),
        decreases edges.len() - j,
    {
        assert(edges.deep_view()[j as int] == edges@[j as int].deep_view());
        if edges[j].kind == EdgeKind::Contains {
            let _ = above.insert(edges[j].to.0.clone(), edges[j].from.0.clone());
        }
        j += 1;
    }
    Graph { places: found, parents: above }
}

/// The node of an id.
pub open spec fn node_of(s: StreamV, g: GraphV, id: Text) -> Option<NodeV> {
    match table::lookup(g.places, id) {
        Some(i) if i < s.nodes.len() => Some(s.nodes[i as int]),
        _ => None,
    }
}

fn node_at<'a>(stream: &'a Stream, g: &Graph, id: &str) -> (node: Option<&'a Node>)
    ensures
        node.deep_view() == node_of(stream.deep_view(), g.deep_view(), id@),
{
    match g.places.get(id) {
        Some(i) => {
            if *i < stream.nodes.len() {
                assert(stream.deep_view().nodes[*i as int] == stream.nodes@[*i as int].deep_view());
                Some(&stream.nodes[*i])
            } else {
                None
            }
        },
        None => None,
    }
}

proof fn lemma_places(nodes: Seq<NodeV>, n: nat, id: Text)
    requires
        n <= nodes.len() <= usize::MAX,
    ensures
        match table::lookup(places(nodes, n), id) {
            Some(i) => i < n && nodes[i as int].id == id && forall|k: int|
                i < k < n ==> (#[trigger] nodes[k]).id != id,
            None => forall|k: int| 0 <= k < n ==> (#[trigger] nodes[k]).id != id,
        },
    decreases n,
{
    if n > 0 {
        lemma_places(nodes, (n - 1) as nat, id);
        table::lemma_put_lookup(
            places(nodes, (n - 1) as nat),
            nodes[n - 1].id,
            (n - 1) as usize,
            id,
        );
    }
}

/// The node found under an id is the last one that the stream has of it, and
/// there is one exactly where the stream has any.
pub proof fn lemma_node_found(s: StreamV, id: Text)
    requires
        s.nodes.len() <= usize::MAX,
    ensures
        match node_of(s, graph_of(s), id) {
            Some(n) => exists|i: int|
                0 <= i < s.nodes.len() && #[trigger] s.nodes[i] == n && n.id == id && forall|k: int|
                    i < k < s.nodes.len() ==> (#[trigger] s.nodes[k]).id != id,
            None => forall|k: int| 0 <= k < s.nodes.len() ==> (#[trigger] s.nodes[k]).id != id,
        },
{
    lemma_places(s.nodes, s.nodes.len(), id);
}

pub open spec fn attr_of(node: NodeV, key: Text) -> Option<Text> {
    json::str_of(table::lookup(node.attrs, key))
}

fn attr(node: &Node, key: &str) -> (s: Option<String>)
    ensures
        s.deep_view() == attr_of(node.deep_view(), key@),
{
    match json::field(&node.attrs, key) {
        Some(Json::Str(s)) => Some(s.clone()),
        _ => None,
    }
}

pub open spec fn lines_in(node: NodeV) -> u64 {
    json::whole_or(table::lookup(node.attrs, "lines"@), 0)
}

fn lines_of(node: &Node) -> (n: u64)
    ensures
        n == lines_in(node.deep_view()),
{
    match json::field(&node.attrs, "lines") {
        Some(Json::Whole(n)) => *n,
        _ => 0,
    }
}

/// A string that the node of an id carries.
pub open spec fn named(s: StreamV, g: GraphV, id: Text, key: Text) -> Option<Text> {
    match node_of(s, g, id) {
        Some(n) => attr_of(n, key),
        None => None,
    }
}

fn find_named(stream: &Stream, g: &Graph, id: &str, key: &str) -> (s: Option<String>)
    ensures
        s.deep_view() == named(stream.deep_view(), g.deep_view(), id@, key@),
{
    match node_at(stream, g, id) {
        Some(n) => attr(n, key),
        None => None,
    }
}

pub open spec fn or_else(s: Option<Text>, other: Text) -> Text {
    match s {
        Some(s) => s,
        None => other,
    }
}

fn or(s: Option<String>, other: &str) -> (out: String)
    ensures
        out@ == or_else(s.deep_view(), other@),
{
    match s {
        Some(s) => s,
        None => other.to_owned(),
    }
}

/// How far up containment is followed. A stream from elsewhere may have a
/// cycle.
pub const REACH: usize = 64;

/// The first id with a prefix, up containment and at most `steps` ids away.
pub open spec fn climbed(g: GraphV, at: Text, prefix: Text, steps: nat) -> Option<Text>
    decreases steps,
{
    if steps == 0 {
        None
    } else if text::has_prefix(at, prefix) {
        Some(at)
    } else {
        match table::lookup(g.parents, at) {
            Some(above) => climbed(g, above, prefix, (steps - 1) as nat),
            None => None,
        }
    }
}

pub open spec fn holder(g: GraphV, id: Text, prefix: Text) -> Option<Text> {
    climbed(g, id, prefix, REACH as nat)
}

fn climb(g: &Graph, start: &str, prefix: &str) -> (id: Option<String>)
    ensures
        id.deep_view() == holder(g.deep_view(), start@, prefix@),
{
    let mut at = start.to_owned();
    let mut steps: usize = REACH;
    while steps > 0
        invariant
            holder(g.deep_view(), start@, prefix@) == climbed(
                g.deep_view(),
                at@,
                prefix@,
                steps as nat,
            ),
        decreases steps,
    {
        if text::starts_with(at.as_str(), prefix) {
            return Some(at);
        }
        match g.parents.get(at.as_str()) {
            Some(above) => {
                at = above.clone();
            },
            None => {
                return None;
            },
        }
        steps -= 1;
    }
    None
}

/// The name of the package that something is in.
pub open spec fn package_of(s: StreamV, g: GraphV, id: Text) -> Option<Text> {
    match holder(g, id, "pkg:"@) {
        Some(pkg) => named(s, g, pkg, "name"@),
        None => None,
    }
}

fn find_package(stream: &Stream, g: &Graph, id: &str) -> (name: Option<String>)
    ensures
        name.deep_view() == package_of(stream.deep_view(), g.deep_view(), id@),
{
    match climb(g, id, "pkg:") {
        Some(pkg) => find_named(stream, g, pkg.as_str(), "name"),
        None => None,
    }
}

/// The path of the file that something is in.
pub open spec fn path_of(s: StreamV, g: GraphV, id: Text) -> Option<Text> {
    match holder(g, id, "file:"@) {
        Some(file) => named(s, g, file, "path"@),
        None => None,
    }
}

fn find_path(stream: &Stream, g: &Graph, id: &str) -> (path: Option<String>)
    ensures
        path.deep_view() == path_of(stream.deep_view(), g.deep_view(), id@),
{
    match climb(g, id, "file:") {
        Some(file) => find_named(stream, g, file.as_str(), "path"),
        None => None,
    }
}

/// An id without the kind it begins with.
pub open spec fn bare(id: Text) -> Text {
    match text::cut(id, ":"@) {
        Some((_, rest)) => rest,
        None => id,
    }
}

fn strip_kind(id: &str) -> (s: String)
    ensures
        s@ == bare(id@),
{
    match text::split_once(id, ":") {
        Some((_, rest)) => rest,
        None => id.to_owned(),
    }
}

/// What something is called.
pub open spec fn called(s: StreamV, g: GraphV, id: Text) -> Text {
    or_else(named(s, g, id, "name"@), bare(id))
}

fn find_called(stream: &Stream, g: &Graph, id: &str) -> (s: String)
    ensures
        s@ == called(stream.deep_view(), g.deep_view(), id@),
{
    or(find_named(stream, g, id, "name"), strip_kind(id).as_str())
}

pub open spec fn untyped(id: Text) -> Text {
    or_else(text::without_prefix(id, "type:"@), id)
}

fn strip_type(id: &str) -> (s: String)
    ensures
        s@ == untyped(id@),
{
    or(text::strip_prefix(id, "type:"), id)
}

/// The bare name of a type that the stream describes.
pub open spec fn declared_base(s: StreamV, g: GraphV, id: Text) -> Option<Text> {
    match named(s, g, id, "base"@) {
        Some(base) => Some(base),
        None => named(s, g, id, "text"@),
    }
}

fn find_declared(stream: &Stream, g: &Graph, id: &str) -> (s: Option<String>)
    ensures
        s.deep_view() == declared_base(stream.deep_view(), g.deep_view(), id@),
{
    match find_named(stream, g, id, "base") {
        Some(base) => Some(base),
        None => find_named(stream, g, id, "text"),
    }
}

/// The bare name of a type, with whatever a generic wraps stripped away.
pub open spec fn base_name(s: StreamV, g: GraphV, id: Text) -> Text {
    or_else(declared_base(s, g, id), untyped(id))
}

fn base_of(stream: &Stream, g: &Graph, id: &str) -> (s: String)
    ensures
        s@ == base_name(stream.deep_view(), g.deep_view(), id@),
{
    or(find_declared(stream, g, id), strip_type(id).as_str())
}

/// The type exactly as the author typed it.
pub open spec fn written_as(s: StreamV, g: GraphV, id: Text) -> Text {
    or_else(named(s, g, id, "text"@), untyped(id))
}

fn written(stream: &Stream, g: &Graph, id: &str) -> (s: String)
    ensures
        s@ == written_as(stream.deep_view(), g.deep_view(), id@),
{
    or(find_named(stream, g, id, "text"), strip_type(id).as_str())
}

// --- counting nodes ----------------------------------------------------------

/// What the nodes come to: the files and the lines of each package, and the
/// symbols of each file.
pub struct Sizes {
    pub files: Table<u64>,
    pub lines: Table<u64>,
    pub symbols: Table<u64>,
}

pub struct SizesV {
    pub files: Seq<(Text, u64)>,
    pub lines: Seq<(Text, u64)>,
    pub symbols: Seq<(Text, u64)>,
}

impl DeepView for Sizes {
    type V = SizesV;

    open spec fn deep_view(&self) -> SizesV {
        SizesV {
            files: self.files.deep_view(),
            lines: self.lines.deep_view(),
            symbols: self.symbols.deep_view(),
        }
    }
}

pub open spec fn sizes(s: StreamV, g: GraphV, n: nat) -> SizesV
    decreases n,
{
    if n == 0 {
        SizesV { files: seq![], lines: seq![], symbols: seq![] }
    } else {
        let before = sizes(s, g, (n - 1) as nat);
        let node = s.nodes[n - 1];
        match node.kind {
            NodeKind::File => match holder(g, node.id, "pkg:"@) {
                Some(pkg) => SizesV {
                    files: table::with_one(before.files, pkg),
                    lines: table::put(
                        before.lines,
                        pkg,
                        table::more(table::tally_at(before.lines, pkg), lines_in(node)),
                    ),
                    symbols: before.symbols,
                },
                None => before,
            },
            NodeKind::Symbol => match holder(g, node.id, "file:"@) {
                Some(file) => SizesV {
                    files: before.files,
                    lines: before.lines,
                    symbols: table::with_one(before.symbols, file),
                },
                None => before,
            },
            _ => before,
        }
    }
}

fn tally(counts: &Table<u64>, name: &str) -> (n: u64)
    ensures
        n == table::tally_at(counts.deep_view(), name@),
{
    match counts.get(name) {
        Some(n) => *n,
        None => 0,
    }
}

fn read_sizes(stream: &Stream, g: &Graph) -> (out: Sizes)
    ensures
        out.deep_view() == sizes(stream.deep_view(), g.deep_view(), stream.nodes@.len()),
{
    let nodes = &stream.nodes;
    let mut out = Sizes { files: Table::new(), lines: Table::new(), symbols: Table::new() };
    let mut i: usize = 0;
    while i < nodes.len()
        invariant
            i <= nodes.len(),
            *nodes == stream.nodes,
            out.deep_view() == sizes(stream.deep_view(), g.deep_view(), i as nat),
        decreases nodes.len() - i,
    {
        let node = &nodes[i];
        assert(stream.deep_view().nodes[i as int] == node.deep_view());
        if node.kind == NodeKind::File {
            if let Some(pkg) = climb(g, node.id.0.as_str(), "pkg:") {
                let sum: u64 = table::sum(tally(&out.lines, pkg.as_str()), lines_of(node));
                table::count_one(&mut out.files, pkg.as_str());
                let _ = out.lines.insert(pkg, sum);
            }
        } else if node.kind == NodeKind::Symbol {
            if let Some(file) = climb(g, node.id.0.as_str(), "file:") {
                table::count_one(&mut out.symbols, file.as_str());
            }
        }
        i += 1;
    }
    out
}

// --- what the sizes add up to ------------------------------------------------

/// What some numbers add up to.
pub open spec fn total(numbers: Seq<nat>) -> nat
    decreases numbers.len(),
{
    if numbers.len() == 0 {
        0
    } else {
        total(numbers.drop_last()) + numbers.last()
    }
}

/// The lines a node says it has.
pub open spec fn lines_said(node: NodeV) -> nat {
    match table::lookup(node.attrs, "lines"@) {
        Some(JsonV::Whole(n)) => n as nat,
        _ => 0,
    }
}

/// The lines of each file among the first `n` nodes that a package holds.
pub open spec fn lines_held(s: StreamV, g: GraphV, pkg: Text, n: nat) -> Seq<nat> {
    Seq::new(
        n,
        |i: int|
            if s.nodes[i].kind == NodeKind::File && holder(g, s.nodes[i].id, "pkg:"@) == Some(pkg) {
                lines_said(s.nodes[i])
            } else {
                0
            },
    )
}

/// Which of the first `n` nodes are of a kind and held by an id of a prefix.
pub open spec fn held_by(
    s: StreamV,
    g: GraphV,
    kind: NodeKind,
    prefix: Text,
    id: Text,
    n: nat,
) -> Seq<nat> {
    Seq::new(
        n,
        |i: int|
            if s.nodes[i].kind == kind && holder(g, s.nodes[i].id, prefix) == Some(id) {
                1
            } else {
                0
            },
    )
}

/// The lines of a package are those of the files it holds, added up; its files
/// and the symbols of a file are as many as it holds. What cannot be counted
/// any more is the largest number there is.
pub proof fn lemma_sizes_added(s: StreamV, g: GraphV, id: Text, n: nat)
    requires
        n <= s.nodes.len(),
    ensures
        ({
            let sizes = sizes(s, g, n);
            let lines = total(lines_held(s, g, id, n));
            let files = total(held_by(s, g, NodeKind::File, "pkg:"@, id, n));
            let symbols = total(held_by(s, g, NodeKind::Symbol, "file:"@, id, n));
            &&& table::tally_at(sizes.lines, id) == if lines <= u64::MAX {
                lines
            } else {
                u64::MAX as nat
            }
            &&& table::tally_at(sizes.files, id) == if files <= u64::MAX {
                files
            } else {
                u64::MAX as nat
            }
            &&& table::tally_at(sizes.symbols, id) == if symbols <= u64::MAX {
                symbols
            } else {
                u64::MAX as nat
            }
        }),
    decreases n,
{
    if n > 0 {
        let m = (n - 1) as nat;
        lemma_sizes_added(s, g, id, m);
        let before = sizes(s, g, m);
        let node = s.nodes[n - 1];
        let lines = lines_held(s, g, id, n);
        let files = held_by(s, g, NodeKind::File, "pkg:"@, id, n);
        let symbols = held_by(s, g, NodeKind::Symbol, "file:"@, id, n);
        assert(lines.drop_last() =~= lines_held(s, g, id, m));
        assert(files.drop_last() =~= held_by(s, g, NodeKind::File, "pkg:"@, id, m));
        assert(symbols.drop_last() =~= held_by(s, g, NodeKind::Symbol, "file:"@, id, m));
        if node.kind == NodeKind::File {
            if let Some(pkg) = holder(g, node.id, "pkg:"@) {
                let sum = table::more(table::tally_at(before.lines, pkg), lines_in(node));
                let count = table::more(table::tally_at(before.files, pkg), 1);
                table::lemma_put_lookup(before.lines, pkg, sum, id);
                table::lemma_put_lookup(before.files, pkg, count, id);
            }
        }
        if node.kind == NodeKind::Symbol {
            if let Some(file) = holder(g, node.id, "file:"@) {
                let count = table::more(table::tally_at(before.symbols, file), 1);
                table::lemma_put_lookup(before.symbols, file, count, id);
            }
        }
    }
}

// --- effects, counted where they happen and listed once ----------------------

/// The effects worth a badge. Silencing a lint is not among them: it is a
/// property of the code, not something the program does.
pub open spec fn effect_of(kind: EdgeKind) -> Option<Text> {
    match kind {
        EdgeKind::Spawns => Some("spawns"@),
        EdgeKind::ReadsEnv => Some("reads_env"@),
        EdgeKind::EffectFs => Some("effect_fs"@),
        EdgeKind::EffectNet => Some("effect_net"@),
        EdgeKind::EffectExec => Some("effect_exec"@),
        EdgeKind::UnsafeAt => Some("unsafe_at"@),
        _ => None,
    }
}

fn effect_name(kind: EdgeKind) -> (name: Option<&'static str>)
    ensures
        shown(name) == effect_of(kind),
{
    match kind {
        EdgeKind::Spawns => Some("spawns"),
        EdgeKind::ReadsEnv => Some("reads_env"),
        EdgeKind::EffectFs => Some("effect_fs"),
        EdgeKind::EffectNet => Some("effect_net"),
        EdgeKind::EffectExec => Some("effect_exec"),
        EdgeKind::UnsafeAt => Some("unsafe_at"),
        _ => None,
    }
}

pub struct Effects {
    pub packages: Table<Table<u64>>,
    pub files: Table<Table<u64>>,
    pub symbols: Table<Names>,
    pub rows: Vec<Json>,
}

pub struct EffectsV {
    pub packages: Seq<(Text, Seq<(Text, u64)>)>,
    pub files: Seq<(Text, Seq<(Text, u64)>)>,
    pub symbols: Seq<(Text, Seq<(Text, ())>)>,
    pub rows: Seq<JsonV>,
}

impl DeepView for Effects {
    type V = EffectsV;

    open spec fn deep_view(&self) -> EffectsV {
        EffectsV {
            packages: self.packages.deep_view(),
            files: self.files.deep_view(),
            symbols: self.symbols.deep_view(),
            rows: self.rows.deep_view(),
        }
    }
}

/// The counts with one more of a kind under a name.
pub open spec fn counted_in(tables: Seq<(Text, Seq<(Text, u64)>)>, name: Text, kind: Text) -> Seq<
    (Text, Seq<(Text, u64)>),
> {
    table::put(tables, name, table::with_one(table::items_at(tables, name), kind))
}

fn count_in(tables: &mut Table<Table<u64>>, name: &str, kind: &str)
    ensures
        final(tables).deep_view() == counted_in(old(tables).deep_view(), name@, kind@),
{
    let ghost before = tables.deep_view();
    let mut counts: Table<u64> = match tables.insert(name.to_owned(), Table::new()) {
        Some(held) => held,
        None => Table::new(),
    };
    assert(counts.deep_view() =~= table::items_at(before, name@));
    table::count_one(&mut counts, kind);
    proof {
        table::lemma_put_put(before, name@, seq![], counts.deep_view());
    }
    let _ = tables.insert(name.to_owned(), counts);
}

/// The sets with a kind among those under a name.
pub open spec fn noted_in(sets: Seq<(Text, Seq<(Text, ())>)>, name: Text, kind: Text) -> Seq<
    (Text, Seq<(Text, ())>),
> {
    table::put(sets, name, table::put(table::items_at(sets, name), kind, ()))
}

fn note_in(sets: &mut Table<Names>, name: &str, kind: &str)
    ensures
        final(sets).deep_view() == noted_in(old(sets).deep_view(), name@, kind@),
{
    let ghost before = sets.deep_view();
    let mut set: Names = match sets.insert(name.to_owned(), Table::new()) {
        Some(held) => held,
        None => Table::new(),
    };
    assert(set.deep_view() =~= table::items_at(before, name@));
    let _ = set.insert(kind.to_owned(), ());
    proof {
        table::lemma_put_put(before, name@, seq![], set.deep_view());
    }
    let _ = sets.insert(name.to_owned(), set);
}

/// A row with what an edge carries under a key, where it carries it.
pub open spec fn with_attr(
    row: Seq<(Text, JsonV)>,
    attrs: Seq<(Text, JsonV)>,
    from: Text,
    to: Text,
) -> Seq<(Text, JsonV)> {
    match table::lookup(attrs, from) {
        Some(v) => row.push((to, v)),
        None => row,
    }
}

fn add_attr(row: &mut Vec<(String, Json)>, attrs: &Vec<(String, Json)>, from: &str, to: &str)
    ensures
        final(row).deep_view() == with_attr(
            old(row).deep_view(),
            attrs.deep_view(),
            from@,
            to@,
        ),
{
    if let Some(v) = json::field(attrs, from) {
        crate::json::add(row, to, v.copy());
    }
}

pub open spec fn effect_row(s: StreamV, g: GraphV, e: EdgeV, kind: Text) -> JsonV
    recommends
        e.ev.len() > 0,
{
    let row = seq![("k"@, JsonV::Str(kind))].push(
        ("pkg"@, text_or_null(package_of(s, g, e.from))),
    ).push(("sym"@, JsonV::Str(or_else(named(s, g, e.from, "name"@), e.from)))).push(
        ("to"@, JsonV::Str(called(s, g, e.to))),
    ).push(("file"@, JsonV::Str(e.ev[0].file))).push(
        ("line"@, JsonV::Whole(e.ev[0].line.0 as u64)),
    );
    JsonV::Object(
        with_attr(
            with_attr(
                with_attr(with_attr(row, e.attrs, "via"@, "via"@), e.attrs, "source_fn"@, "src"@),
                e.attrs,
                "env_var"@,
                "env"@,
            ),
            e.attrs,
            "form"@,
            "form"@,
        ),
    )
}

fn write_effect(stream: &Stream, g: &Graph, e: &Edge, kind: &str) -> (j: Json)
    requires
        e.ev@.len() > 0,
    ensures
        j.deep_view() == effect_row(stream.deep_view(), g.deep_view(), e.deep_view(), kind@),
{
    let from = e.from.0.as_str();
    assert(e.deep_view().ev[0] == e.ev@[0].deep_view());
    let mut row = json::no_fields();
    crate::json::add(&mut row, "k", Json::str(kind));
    crate::json::add(&mut row, "pkg", write_text(&find_package(stream, g, from)));
    crate::json::add(
        &mut row,
        "sym",
        Json::Str(or(find_named(stream, g, from, "name"), from)),
    );
    crate::json::add(&mut row, "to", Json::Str(find_called(stream, g, e.to.0.as_str())));
    crate::json::add(&mut row, "file", Json::str(e.ev[0].file.as_str()));
    crate::json::add(&mut row, "line", Json::Whole(e.ev[0].line[0] as u64));
    assert(row.deep_view() =~= seq![("k"@, JsonV::Str(kind@))].push(
        (
            "pkg"@,
            text_or_null(package_of(stream.deep_view(), g.deep_view(), from@)),
        ),
    ).push(
        (
            "sym"@,
            JsonV::Str(
                or_else(named(stream.deep_view(), g.deep_view(), from@, "name"@), from@),
            ),
        ),
    ).push(("to"@, JsonV::Str(called(stream.deep_view(), g.deep_view(), e.to.0@)))).push(
        ("file"@, JsonV::Str(e.ev@[0].file@)),
    ).push(("line"@, JsonV::Whole(e.ev@[0].line@[0] as u64))));
    add_attr(&mut row, &e.attrs, "via", "via");
    add_attr(&mut row, &e.attrs, "source_fn", "src");
    add_attr(&mut row, &e.attrs, "env_var", "env");
    add_attr(&mut row, &e.attrs, "form", "form");
    Json::object(row)
}

pub open spec fn effect_step(s: StreamV, g: GraphV, st: EffectsV, e: EdgeV) -> EffectsV {
    match effect_of(e.kind) {
        Some(kind) => EffectsV {
            packages: match holder(g, e.from, "pkg:"@) {
                Some(pkg) => counted_in(st.packages, pkg, kind),
                None => st.packages,
            },
            files: match holder(g, e.from, "file:"@) {
                Some(file) => counted_in(st.files, file, kind),
                None => st.files,
            },
            symbols: noted_in(st.symbols, e.from, kind),
            rows: if e.ev.len() > 0 {
                st.rows.push(effect_row(s, g, e, kind))
            } else {
                st.rows
            },
        },
        None => st,
    }
}

pub open spec fn effects_in(s: StreamV, g: GraphV, n: nat) -> EffectsV
    decreases n,
{
    if n == 0 {
        EffectsV { packages: seq![], files: seq![], symbols: seq![], rows: seq![] }
    } else {
        effect_step(s, g, effects_in(s, g, (n - 1) as nat), s.edges[n - 1])
    }
}

fn read_effects(stream: &Stream, g: &Graph) -> (out: Effects)
    ensures
        out.deep_view() == effects_in(stream.deep_view(), g.deep_view(), stream.edges@.len()),
{
    let edges = &stream.edges;
    let mut out = Effects {
        packages: Table::new(),
        files: Table::new(),
        symbols: Table::new(),
        rows: Vec::new(),
    };
    assert(out.rows.deep_view() =~= seq![]);
    let mut i: usize = 0;
    while i < edges.len()
        invariant
            i <= edges.len(),
            *edges == stream.edges,
            out.deep_view() == effects_in(stream.deep_view(), g.deep_view(), i as nat),
        decreases edges.len() - i,
    {
        let e = &edges[i];
        assert(stream.deep_view().edges[i as int] == e.deep_view());
        if let Some(kind) = effect_name(e.kind) {
            let from = e.from.0.as_str();
            if let Some(pkg) = climb(g, from, "pkg:") {
                count_in(&mut out.packages, pkg.as_str(), kind);
            }
            if let Some(file) = climb(g, from, "file:") {
                count_in(&mut out.files, file.as_str(), kind);
            }
            note_in(&mut out.symbols, from, kind);
            // An effect without a site is not reportable.
            if e.ev.len() > 0 {
                text::push(&mut out.rows, write_effect(stream, g, e, kind));
            }
        }
        i += 1;
    }
    out
}

/// How many of the first `n` edges are effects of a kind under a holder.
pub open spec fn effects_under(
    s: StreamV,
    g: GraphV,
    prefix: Text,
    name: Text,
    kind: Text,
    n: nat,
) -> nat
    decreases n,
{
    if n == 0 {
        0
    } else {
        let e = s.edges[n - 1];
        effects_under(s, g, prefix, name, kind, (n - 1) as nat) + if effect_of(e.kind) == Some(kind)
            && holder(g, e.from, prefix) == Some(name) {
            1nat
        } else {
            0nat
        }
    }
}

/// How many of the first `n` edges are effects that show where they happen.
pub open spec fn effects_sited(s: StreamV, n: nat) -> nat
    decreases n,
{
    if n == 0 {
        0
    } else {
        let e = s.edges[n - 1];
        effects_sited(s, (n - 1) as nat) + if effect_of(e.kind) is Some && e.ev.len() > 0 {
            1nat
        } else {
            0nat
        }
    }
}

pub open spec fn as_count(n: nat) -> u64 {
    if n <= u64::MAX {
        n as u64
    } else {
        u64::MAX
    }
}

proof fn lemma_counted_in(
    tables: Seq<(Text, Seq<(Text, u64)>)>,
    at: Text,
    found: Text,
    name: Text,
    kind: Text,
)
    ensures
        table::tally_at(table::items_at(counted_in(tables, at, found), name), kind) == ({
            let held = table::tally_at(table::items_at(tables, name), kind);
            if at == name && found == kind {
                table::more(held, 1)
            } else {
                held
            }
        }),
{
    let counts = table::items_at(tables, at);
    let n = table::more(table::tally_at(counts, found), 1);
    table::lemma_put_lookup(tables, at, table::put(counts, found, n), name);
    table::lemma_put_lookup(counts, found, n, kind);
}

/// What is shown above a place is what happens beneath it: a package and a
/// file count exactly the effects they hold, and an effect is listed exactly
/// where it shows where it happens.
pub proof fn lemma_effects_counted(s: StreamV, g: GraphV, name: Text, kind: Text, n: nat)
    requires
        n <= s.edges.len(),
    ensures
        ({
            let seen = effects_in(s, g, n);
            &&& table::tally_at(table::items_at(seen.packages, name), kind) == as_count(
                effects_under(s, g, "pkg:"@, name, kind, n),
            )
            &&& table::tally_at(table::items_at(seen.files, name), kind) == as_count(
                effects_under(s, g, "file:"@, name, kind, n),
            )
            &&& seen.rows.len() == effects_sited(s, n)
        }),
    decreases n,
{
    if n > 0 {
        lemma_effects_counted(s, g, name, kind, (n - 1) as nat);
        let before = effects_in(s, g, (n - 1) as nat);
        let e = s.edges[n - 1];
        if let Some(found) = effect_of(e.kind) {
            if let Some(pkg) = holder(g, e.from, "pkg:"@) {
                lemma_counted_in(before.packages, pkg, found, name, kind);
            }
            if let Some(file) = holder(g, e.from, "file:"@) {
                lemma_counted_in(before.files, file, found, name, kind);
            }
        }
    }
}

// --- what is linked to what --------------------------------------------------

/// Something at a position: a parameter or a type argument.
pub struct Slot {
    pub position: u64,
    pub name: String,
    pub ty: String,
}

#[verifier::ext_equal]
pub struct SlotV {
    pub position: u64,
    pub name: Text,
    pub ty: Text,
}

impl DeepView for Slot {
    type V = SlotV;

    open spec fn deep_view(&self) -> SlotV {
        SlotV { position: self.position, name: self.name@, ty: self.ty@ }
    }
}

impl Slot {
    fn copy(&self) -> (slot: Slot)
        ensures
            slot.deep_view() == self.deep_view(),
    {
        Slot { position: self.position, name: self.name.clone(), ty: self.ty.clone() }
    }
}

/// What the edges say of packages, types and functions.
pub struct Links {
    /// What each package depends on.
    pub deps: Table<Vec<String>>,
    /// The programs each package builds.
    pub bins: Table<Vec<String>>,
    /// The symbol that defines each type.
    pub defined: Table<String>,
    pub args: Table<Vec<Slot>>,
    /// How often each type stands in a signature, a field or another type.
    pub used: Table<u64>,
    pub fields: Table<Vec<(String, String)>>,
    pub params: Table<Vec<Slot>>,
    pub returns: Table<String>,
}

pub struct LinksV {
    pub deps: Seq<(Text, Seq<Text>)>,
    pub bins: Seq<(Text, Seq<Text>)>,
    pub defined: Seq<(Text, Text)>,
    pub args: Seq<(Text, Seq<SlotV>)>,
    pub used: Seq<(Text, u64)>,
    pub fields: Seq<(Text, Seq<(Text, Text)>)>,
    pub params: Seq<(Text, Seq<SlotV>)>,
    pub returns: Seq<(Text, Text)>,
}

impl DeepView for Links {
    type V = LinksV;

    open spec fn deep_view(&self) -> LinksV {
        LinksV {
            deps: self.deps.deep_view(),
            bins: self.bins.deep_view(),
            defined: self.defined.deep_view(),
            args: self.args.deep_view(),
            used: self.used.deep_view(),
            fields: self.fields.deep_view(),
            params: self.params.deep_view(),
            returns: self.returns.deep_view(),
        }
    }
}

pub open spec fn no_links() -> LinksV {
    LinksV {
        deps: seq![],
        bins: seq![],
        defined: seq![],
        args: seq![],
        used: seq![],
        fields: seq![],
        params: seq![],
        returns: seq![],
    }
}

pub open spec fn slot_of(e: EdgeV, other: Text) -> SlotV {
    SlotV {
        position: json::whole_or(table::lookup(e.attrs, "position"@), 0),
        name: json::str_or(table::lookup(e.attrs, "name"@), other),
        ty: e.to,
    }
}

fn position_of(e: &Edge) -> (n: u64)
    ensures
        n == json::whole_or(table::lookup(e.deep_view().attrs, "position"@), 0),
{
    match json::field(&e.attrs, "position") {
        Some(Json::Whole(n)) => *n,
        _ => 0,
    }
}

fn name_of(e: &Edge, other: &str) -> (s: String)
    ensures
        s@ == json::str_or(table::lookup(e.deep_view().attrs, "name"@), other@),
{
    match json::field(&e.attrs, "name") {
        Some(Json::Str(s)) => s.clone(),
        _ => other.to_owned(),
    }
}

/// The name of the program an id is of, where it is of one.
pub open spec fn program(s: StreamV, g: GraphV, id: Text) -> Option<Text> {
    match node_of(s, g, id) {
        Some(n) => if n.kind == NodeKind::Binary {
            attr_of(n, "name"@)
        } else {
            None
        },
        None => None,
    }
}

fn find_program(stream: &Stream, g: &Graph, id: &str) -> (name: Option<String>)
    ensures
        name.deep_view() == program(stream.deep_view(), g.deep_view(), id@),
{
    match node_at(stream, g, id) {
        Some(n) => {
            if n.kind == NodeKind::Binary {
                attr(n, "name")
            } else {
                None
            }
        },
        None => None,
    }
}

pub open spec fn link_step(s: StreamV, g: GraphV, st: LinksV, e: EdgeV) -> LinksV {
    match e.kind {
        EdgeKind::DependsOn => LinksV { deps: table::with_item(st.deps, e.from, e.to), ..st },
        EdgeKind::Contains => match program(s, g, e.to) {
            Some(name) => LinksV { bins: table::with_item(st.bins, e.from, name), ..st },
            None => st,
        },
        EdgeKind::Defines => LinksV { defined: table::put(st.defined, e.to, e.from), ..st },
        EdgeKind::TypeArg => LinksV {
            args: table::with_item(st.args, e.from, SlotV { name: seq![], ..slot_of(e, seq![]) }),
            used: table::with_one(st.used, e.to),
            ..st
        },
        EdgeKind::HasField => LinksV {
            fields: table::with_item(
                st.fields,
                e.from,
                (json::str_or(table::lookup(e.attrs, "name"@), seq![]), written_as(s, g, e.to)),
            ),
            used: table::with_one(st.used, e.to),
            ..st
        },
        EdgeKind::Param => LinksV {
            params: table::with_item(st.params, e.from, slot_of(e, "_"@)),
            used: table::with_one(st.used, e.to),
            ..st
        },
        EdgeKind::Returns => LinksV {
            returns: table::put(st.returns, e.from, e.to),
            used: table::with_one(st.used, e.to),
            ..st
        },
        _ => st,
    }
}

fn link(stream: &Stream, g: &Graph, out: &mut Links, e: &Edge)
    ensures
        final(out).deep_view() == link_step(
            stream.deep_view(),
            g.deep_view(),
            old(out).deep_view(),
            e.deep_view(),
        ),
{
    let from = e.from.0.as_str();
    let to = e.to.0.as_str();
    match e.kind {
        EdgeKind::DependsOn => {
            table::add_item(&mut out.deps, from, to.to_owned());
        },
        EdgeKind::Contains => {
            if let Some(name) = find_program(stream, g, to) {
                table::add_item(&mut out.bins, from, name);
            }
        },
        EdgeKind::Defines => {
            let _ = out.defined.insert(to.to_owned(), from.to_owned());
        },
        EdgeKind::TypeArg => {
            let slot = Slot { position: position_of(e), name: text::empty(), ty: to.to_owned() };
            table::add_item(&mut out.args, from, slot);
            table::count_one(&mut out.used, to);
        },
        EdgeKind::HasField => {
            let name = name_of(e, text::empty().as_str());
            table::add_item(&mut out.fields, from, (name, written(stream, g, to)));
            table::count_one(&mut out.used, to);
        },
        EdgeKind::Param => {
            let slot = Slot {
                position: position_of(e),
                name: name_of(e, "_"),
                ty: to.to_owned(),
            };
            table::add_item(&mut out.params, from, slot);
            table::count_one(&mut out.used, to);
        },
        EdgeKind::Returns => {
            let _ = out.returns.insert(from.to_owned(), to.to_owned());
            table::count_one(&mut out.used, to);
        },
        _ => {},
    }
}

pub open spec fn links_in(s: StreamV, g: GraphV, n: nat) -> LinksV
    decreases n,
{
    if n == 0 {
        no_links()
    } else {
        link_step(s, g, links_in(s, g, (n - 1) as nat), s.edges[n - 1])
    }
}

fn read_links(stream: &Stream, g: &Graph) -> (out: Links)
    ensures
        out.deep_view() == links_in(stream.deep_view(), g.deep_view(), stream.edges@.len()),
{
    let edges = &stream.edges;
    let mut out = Links {
        deps: Table::new(),
        bins: Table::new(),
        defined: Table::new(),
        args: Table::new(),
        used: Table::new(),
        fields: Table::new(),
        params: Table::new(),
        returns: Table::new(),
    };
    let mut i: usize = 0;
    while i < edges.len()
        invariant
            i <= edges.len(),
            *edges == stream.edges,
            out.deep_view() == links_in(stream.deep_view(), g.deep_view(), i as nat),
        decreases edges.len() - i,
    {
        assert(stream.deep_view().edges[i as int] == edges@[i as int].deep_view());
        link(stream, g, &mut out, &edges[i]);
        i += 1;
    }
    out
}

// --- who owns a type name ----------------------------------------------------

/// What a name that two crates both define is attributed to. It is neither's,
/// and a guess would be wrong for one of them.
pub const AMBIGUOUS: &'static str = "~";

/// The package each name is attributed to, by the definitions among the first
/// `n` edges.
pub open spec fn owners(s: StreamV, g: GraphV, n: nat) -> Seq<(Text, Option<Text>)>
    decreases n,
{
    if n == 0 {
        seq![]
    } else {
        let before = owners(s, g, (n - 1) as nat);
        match defined_at(s, g, n - 1) {
            Some(base) => {
                let owner = package_of(s, g, s.edges[n - 1].from);
                match table::lookup(before, base) {
                    None => table::put(before, base, owner),
                    Some(held) => if held != owner {
                        table::put(before, base, Some(AMBIGUOUS@))
                    } else {
                        before
                    },
                }
            },
            None => before,
        }
    }
}

/// The name that an edge says is defined, where it says that.
pub open spec fn defined_at(s: StreamV, g: GraphV, i: int) -> Option<Text> {
    if s.edges[i].kind == EdgeKind::Defines {
        declared_base(s, g, s.edges[i].to)
    } else {
        None
    }
}

fn same_owner(a: &Option<String>, b: &Option<String>) -> (r: bool)
    ensures
        r == (a.deep_view() == b.deep_view()),
{
    match (a, b) {
        (Some(a), Some(b)) => text::same(a.as_str(), b.as_str()),
        (None, None) => true,
        _ => false,
    }
}

fn read_owners(stream: &Stream, g: &Graph) -> (out: Table<Option<String>>)
    ensures
        out.deep_view() == owners(stream.deep_view(), g.deep_view(), stream.edges@.len()),
{
    let edges = &stream.edges;
    let mut out: Table<Option<String>> = Table::new();
    let mut i: usize = 0;
    while i < edges.len()
        invariant
            i <= edges.len(),
            *edges == stream.edges,
            out.deep_view() == owners(stream.deep_view(), g.deep_view(), i as nat),
        decreases edges.len() - i,
    {
        let e = &edges[i];
        assert(stream.deep_view().edges[i as int] == e.deep_view());
        if e.kind == EdgeKind::Defines {
            if let Some(base) = find_declared(stream, g, e.to.0.as_str()) {
                let owner = find_package(stream, g, e.from.0.as_str());
                let known: bool = out.contains(base.as_str());
                let agrees: bool = match out.get(base.as_str()) {
                    Some(held) => same_owner(held, &owner),
                    None => false,
                };
                if !known {
                    let _ = out.insert(base, owner);
                } else if !agrees {
                    let _ = out.insert(base, Some(AMBIGUOUS.to_owned()));
                }
            }
        }
        i += 1;
    }
    out
}

proof fn lemma_owner_kept(s: StreamV, g: GraphV, base: Text, from: nat, n: nat)
    requires
        from <= n,
        table::lookup(owners(s, g, from), base) is Some,
    ensures
        table::lookup(owners(s, g, n), base) == table::lookup(owners(s, g, from), base)
            || table::lookup(owners(s, g, n), base) == Some(Some(AMBIGUOUS@)),
    decreases n,
{
    if from < n {
        lemma_owner_kept(s, g, base, from, (n - 1) as nat);
        lemma_owner_step(s, g, base, n);
    }
}

proof fn lemma_owner_step(s: StreamV, g: GraphV, base: Text, n: nat)
    requires
        n > 0,
    ensures
        ({
            let before = table::lookup(owners(s, g, (n - 1) as nat), base);
            let after = table::lookup(owners(s, g, n), base);
            let owner = package_of(s, g, s.edges[n - 1].from);
            &&& before is Some ==> after == before || after == Some(Some(AMBIGUOUS@))
            &&& defined_at(s, g, n - 1) == Some(base) ==> (after == Some(owner) && (before is None
                || before == Some(owner)) || after == Some(Some(AMBIGUOUS@)))
        }),
{
    let before = owners(s, g, (n - 1) as nat);
    let owner = package_of(s, g, s.edges[n - 1].from);
    if let Some(held) = defined_at(s, g, n - 1) {
        table::lemma_put_lookup(before, held, owner, base);
        table::lemma_put_lookup(before, held, Some(AMBIGUOUS@), base);
    }
}

/// A name that two packages both define is attributed to neither.
pub proof fn lemma_neither_owns(s: StreamV, g: GraphV, base: Text, i: int, j: int)
    requires
        0 <= i < j < s.edges.len(),
        defined_at(s, g, i) == Some(base),
        defined_at(s, g, j) == Some(base),
        package_of(s, g, s.edges[i].from) != package_of(s, g, s.edges[j].from),
    ensures
        owner_of(owners(s, g, s.edges.len()), base) == Some(AMBIGUOUS@),
{
    lemma_owner_step(s, g, base, (i + 1) as nat);
    lemma_owner_kept(s, g, base, (i + 1) as nat, j as nat);
    lemma_owner_step(s, g, base, (j + 1) as nat);
    lemma_owner_kept(s, g, base, (j + 1) as nat, s.edges.len());
}

pub open spec fn owner_of(owners: Seq<(Text, Option<Text>)>, base: Text) -> Option<Text> {
    match table::lookup(owners, base) {
        Some(owner) => owner,
        None => None,
    }
}

fn find_owner(owners: &Table<Option<String>>, base: &str) -> (j: Json)
    ensures
        j.deep_view() == text_or_null(owner_of(owners.deep_view(), base@)),
{
    match owners.get(base) {
        Some(owner) => write_text(owner),
        None => Json::Null,
    }
}

// --- slots in order ----------------------------------------------------------

/// One slot comes before another: by position, then by name, then by type.
pub open spec fn slot_before(a: SlotV, b: SlotV) -> bool {
    a.position < b.position || a.position == b.position && (text::less(a.name, b.name) || a.name
        == b.name && text::less(a.ty, b.ty))
}

fn comes_before(a: &Slot, b: &Slot) -> (r: bool)
    ensures
        r == slot_before(a.deep_view(), b.deep_view()),
{
    if a.position != b.position {
        return a.position < b.position;
    }
    let (x, y) = (a.name.as_str(), b.name.as_str());
    text::is_less(x, y) || text::same(x, y) && text::is_less(a.ty.as_str(), b.ty.as_str())
}

/// A list in order with one more slot, after those that do not come after it.
pub open spec fn placed(list: Seq<SlotV>, slot: SlotV) -> Seq<SlotV>
    decreases list.len(),
{
    if list.len() == 0 || !slot_before(slot, list.last()) {
        list.push(slot)
    } else {
        placed(list.drop_last(), slot).push(list.last())
    }
}

/// The first `n` slots in order.
pub open spec fn arranged(list: Seq<SlotV>, n: nat) -> Seq<SlotV>
    decreases n,
{
    if n == 0 {
        seq![]
    } else {
        placed(arranged(list, (n - 1) as nat), list[n - 1])
    }
}

fn place(list: &mut Vec<Slot>, slot: Slot)
    ensures
        final(list).deep_view() == placed(old(list).deep_view(), slot.deep_view()),
{
    let ghost before = list.deep_view();
    let ghost new = slot.deep_view();
    let mut at: usize = list.len();
    assert(before.take(at as int) =~= before);
    assert(before.skip(at as int) =~= seq![]);
    assert(placed(before, new) =~= placed(before.take(at as int), new) + before.skip(at as int));
    while at > 0 && comes_before(&slot, &list[at - 1])
        invariant
            at <= list.len(),
            before == list.deep_view(),
            *list == *old(list),
            new == slot.deep_view(),
            placed(before, new) == placed(before.take(at as int), new) + before.skip(at as int),
        decreases at,
    {
        let ghost head = before.take(at as int);
        assert(head.last() == list@[at - 1].deep_view());
        assert(head.drop_last() =~= before.take(at - 1));
        assert(placed(head, new) + before.skip(at as int) =~= placed(before.take(at - 1), new)
            + before.skip(at - 1));
        at -= 1;
    }
    proof {
        let head = before.take(at as int);
        if at > 0 {
            assert(head.last() == list@[at - 1].deep_view());
        }
        assert(placed(head, new) == head.push(new));
    }
    list.insert(at, slot);
    assert(list.deep_view() =~= before.take(at as int).push(new) + before.skip(at as int));
}

fn arrange(list: &Vec<Slot>) -> (out: Vec<Slot>)
    ensures
        out.deep_view() == arranged(list.deep_view(), list@.len()),
{
    let mut out: Vec<Slot> = Vec::new();
    assert(out.deep_view() =~= seq![]);
    let mut i: usize = 0;
    while i < list.len()
        invariant
            i <= list.len(),
            out.deep_view() == arranged(list.deep_view(), i as nat),
        decreases list.len() - i,
    {
        assert(list.deep_view()[i as int] == list@[i as int].deep_view());
        place(&mut out, list[i].copy());
        i += 1;
    }
    out
}

fn slots_at(lists: &Table<Vec<Slot>>, name: &str) -> (out: Vec<Slot>)
    ensures
        out.deep_view() == arranged(
            table::items_at(lists.deep_view(), name@),
            table::items_at(lists.deep_view(), name@).len(),
        ),
{
    match lists.get(name) {
        Some(list) => arrange(list),
        None => {
            let none: Vec<Slot> = Vec::new();
            assert(none.deep_view() =~= seq![]);
            none
        },
    }
}

pub open spec fn in_order(list: Seq<SlotV>) -> bool {
    forall|i: int, j: int|
        0 <= i < j < list.len() ==> !slot_before(#[trigger] list[j], #[trigger] list[i])
}

proof fn lemma_slot_before(a: SlotV, b: SlotV, c: SlotV)
    ensures
        slot_before(a, b) ==> !slot_before(b, a),
        !slot_before(b, a) && !slot_before(c, b) ==> !slot_before(c, a),
{
    text::lemma_less_total(a.name, b.name);
    text::lemma_less_total(b.name, c.name);
    text::lemma_less_total(a.ty, b.ty);
    text::lemma_less_total(b.ty, c.ty);
    text::lemma_less_irreflexive(a.name);
    text::lemma_less_irreflexive(a.ty);
    text::lemma_less_irreflexive(b.name);
    text::lemma_less_irreflexive(b.ty);
    lemma_less_asymmetric(a.name, b.name);
    lemma_less_asymmetric(a.ty, b.ty);
    lemma_less_asymmetric(a.name, c.name);
    lemma_less_asymmetric(a.ty, c.ty);
    if text::less(a.name, b.name) && text::less(b.name, c.name) {
        text::lemma_less_transitive(a.name, b.name, c.name);
    }
    if text::less(a.ty, b.ty) && text::less(b.ty, c.ty) {
        text::lemma_less_transitive(a.ty, b.ty, c.ty);
    }
}

proof fn lemma_less_asymmetric(a: Text, b: Text)
    ensures
        text::less(a, b) ==> !text::less(b, a),
{
    text::lemma_less_irreflexive(a);
    if text::less(a, b) && text::less(b, a) {
        text::lemma_less_transitive(a, b, a);
    }
}

proof fn lemma_placed(list: Seq<SlotV>, slot: SlotV)
    requires
        in_order(list),
    ensures
        in_order(placed(list, slot)),
        placed(list, slot).to_multiset() == list.to_multiset().insert(slot),
    decreases list.len(),
{
    broadcast use vstd::seq_lib::group_to_multiset_ensures;

    let after = placed(list, slot);
    if list.len() == 0 || !slot_before(slot, list.last()) {
        assert forall|i: int, j: int| 0 <= i < j < after.len() implies !slot_before(
            #[trigger] after[j],
            #[trigger] after[i],
        ) by {
            if j == list.len() {
                lemma_slot_before(after[i], list.last(), slot);
                if i < list.len() - 1 {
                    assert(!slot_before(list[list.len() - 1], list[i]));
                }
            }
        }
    } else {
        let rest = list.drop_last();
        let inner = placed(rest, slot);
        lemma_placed(rest, slot);
        assert(list =~= rest.push(list.last()));
        assert(list.to_multiset() =~= rest.to_multiset().insert(list.last()));
        assert(after.to_multiset() =~= list.to_multiset().insert(slot));
        assert forall|i: int, j: int| 0 <= i < j < after.len() implies !slot_before(
            #[trigger] after[j],
            #[trigger] after[i],
        ) by {
            if j == inner.len() {
                assert(inner.contains(inner[i]));
                assert(inner.to_multiset().count(inner[i]) > 0);
                assert(inner[i] == slot || rest.to_multiset().count(inner[i]) > 0);
                if inner[i] == slot {
                    lemma_slot_before(slot, list.last(), list.last());
                } else {
                    assert(rest.contains(inner[i]));
                    let k = choose|k: int| 0 <= k < rest.len() && rest[k] == inner[i];
                    assert(!slot_before(list[list.len() - 1], list[k]));
                }
            } else {
                assert(!slot_before(inner[j], inner[i]));
            }
        }
    }
}

proof fn lemma_arranged_from(list: Seq<SlotV>, n: nat)
    requires
        n <= list.len(),
    ensures
        in_order(arranged(list, n)),
        arranged(list, n).to_multiset() == list.take(n as int).to_multiset(),
    decreases n,
{
    broadcast use vstd::seq_lib::group_to_multiset_ensures;

    if n == 0 {
        assert(list.take(0) =~= seq![]);
    } else {
        lemma_arranged_from(list, (n - 1) as nat);
        lemma_placed(arranged(list, (n - 1) as nat), list[n - 1]);
        assert(list.take(n as int) =~= list.take(n - 1).push(list[n - 1]));
    }
}

/// Slots are arranged by position, and none is lost or added by it.
pub proof fn lemma_arranged(list: Seq<SlotV>)
    ensures
        in_order(arranged(list, list.len())),
        arranged(list, list.len()).to_multiset() == list.to_multiset(),
{
    lemma_arranged_from(list, list.len());
    assert(list.take(list.len() as int) =~= list);
}

// --- the names inside a type -------------------------------------------------

/// How deep into a type its names are listed.
pub const DEPTH: u64 = 3;

/// What attributing the names of a type reads.
pub struct Attribution {
    pub args: Seq<(Text, Seq<SlotV>)>,
    pub owners: Seq<(Text, Option<Text>)>,
}

pub open spec fn part_json(s: StreamV, g: GraphV, k: Attribution, id: Text, depth: nat) -> JsonV {
    let base = base_name(s, g, id);
    JsonV::List(
        seq![JsonV::Str(base)].push(text_or_null(owner_of(k.owners, base))).push(
            JsonV::Whole(depth as u64),
        ),
    )
}

/// The written type and everything inside it, each attributed to a crate and
/// none listed twice. With the names go the ids that were seen.
pub open spec fn parts_of(
    s: StreamV,
    g: GraphV,
    k: Attribution,
    id: Text,
    depth: nat,
    st: (Seq<JsonV>, Seq<(Text, ())>),
) -> (Seq<JsonV>, Seq<(Text, ())>)
    decreases DEPTH + 1 - depth, 0nat,
{
    if depth > DEPTH || table::lookup(st.1, id) is Some {
        st
    } else {
        let args = table::items_at(k.args, id);
        let kids = arranged(args, args.len());
        parts_of_all(
            s,
            g,
            k,
            kids,
            kids.len(),
            depth + 1,
            (st.0.push(part_json(s, g, k, id, depth)), table::put(st.1, id, ())),
        )
    }
}

pub open spec fn parts_of_all(
    s: StreamV,
    g: GraphV,
    k: Attribution,
    kids: Seq<SlotV>,
    n: nat,
    depth: nat,
    st: (Seq<JsonV>, Seq<(Text, ())>),
) -> (Seq<JsonV>, Seq<(Text, ())>)
    decreases DEPTH + 1 - depth, n,
{
    if n == 0 || depth > DEPTH + 1 {
        st
    } else {
        parts_of(
            s,
            g,
            k,
            kids[n - 1].ty,
            depth,
            parts_of_all(s, g, k, kids, (n - 1) as nat, depth, st),
        )
    }
}

/// What is known of the types of a stream.
pub struct Types {
    pub links: Links,
    pub owners: Table<Option<String>>,
}

pub open spec fn known(links: LinksV, owners: Seq<(Text, Option<Text>)>) -> Attribution {
    Attribution { args: links.args, owners }
}

fn parts(
    stream: &Stream,
    g: &Graph,
    t: &Types,
    id: &str,
    depth: u64,
    out: &mut Vec<Json>,
    seen: &mut Names,
)
    requires
        depth <= DEPTH + 1,
    ensures
        (final(out).deep_view(), final(seen).deep_view()) == parts_of(
            stream.deep_view(),
            g.deep_view(),
            known(t.links.deep_view(), t.owners.deep_view()),
            id@,
            depth as nat,
            (old(out).deep_view(), old(seen).deep_view()),
        ),
    decreases DEPTH + 1 - depth,
{
    if depth > DEPTH || seen.contains(id) {
        return;
    }
    let ghost k = known(t.links.deep_view(), t.owners.deep_view());
    let _ = seen.insert(id.to_owned(), ());
    let base = base_of(stream, g, id);
    let mut part: Vec<Json> = Vec::new();
    assert(part.deep_view() =~= seq![]);
    text::push(&mut part, Json::str(base.as_str()));
    text::push(&mut part, find_owner(&t.owners, base.as_str()));
    text::push(&mut part, Json::Whole(depth));
    assert(part.deep_view() =~= seq![JsonV::Str(base@)].push(
        text_or_null(owner_of(k.owners, base@)),
    ).push(JsonV::Whole(depth)));
    text::push(out, Json::list(part));
    let kids = slots_at(&t.links.args, id);
    let ghost start = (out.deep_view(), seen.deep_view());
    let mut i: usize = 0;
    while i < kids.len()
        invariant
            i <= kids.len(),
            depth <= DEPTH,
            k == known(t.links.deep_view(), t.owners.deep_view()),
            (out.deep_view(), seen.deep_view()) == parts_of_all(
                stream.deep_view(),
                g.deep_view(),
                k,
                kids.deep_view(),
                i as nat,
                (depth + 1) as nat,
                start,
            ),
        decreases kids.len() - i,
    {
        assert(kids.deep_view()[i as int] == kids@[i as int].deep_view());
        parts(stream, g, t, kids[i].ty.as_str(), depth + 1, out, seen);
        i += 1;
    }
}

pub open spec fn annotated(s: StreamV, g: GraphV, k: Attribution, id: Text) -> JsonV {
    JsonV::List(parts_of(s, g, k, id, 0, (seq![], seq![])).0)
}

fn annotate(stream: &Stream, g: &Graph, t: &Types, id: &str) -> (j: Json)
    ensures
        j.deep_view() == annotated(
            stream.deep_view(),
            g.deep_view(),
            known(t.links.deep_view(), t.owners.deep_view()),
            id@,
        ),
{
    let mut out: Vec<Json> = Vec::new();
    assert(out.deep_view() =~= seq![]);
    let mut seen: Names = Table::new();
    parts(stream, g, t, id, 0, &mut out, &mut seen);
    Json::list(out)
}

// --- rows --------------------------------------------------------------------

pub open spec fn is_external(id: Text) -> bool {
    text::has_prefix(id, "ext:"@)
}

pub open spec fn externals(deps: Seq<Text>, n: nat) -> nat
    decreases n,
{
    if n == 0 {
        0
    } else {
        externals(deps, (n - 1) as nat) + if is_external(deps[n - 1]) {
            1nat
        } else {
            0nat
        }
    }
}

pub open spec fn called_all(s: StreamV, g: GraphV, ids: Seq<Text>) -> JsonV {
    JsonV::List(Seq::new(ids.len(), |i: int| JsonV::Str(called(s, g, ids[i]))))
}

fn list_at(lists: &Table<Vec<String>>, name: &str) -> (out: Vec<String>)
    ensures
        out.deep_view() == table::items_at(lists.deep_view(), name@),
{
    match lists.get(name) {
        Some(list) => text::copy_list(list),
        None => {
            let none: Vec<String> = Vec::new();
            assert(none.deep_view() =~= seq![]);
            none
        },
    }
}

pub open spec fn package_row(
    s: StreamV,
    g: GraphV,
    sizes: SizesV,
    eff: EffectsV,
    links: LinksV,
    node: NodeV,
) -> JsonV {
    let id = node.id;
    let deps = table::items_at(links.deps, id);
    JsonV::Object(
        seq![("id"@, JsonV::Str(id))].push(
            ("name"@, JsonV::Str(or_else(attr_of(node, "name"@), id))),
        ).push(("files"@, JsonV::Whole(table::tally_at(sizes.files, id)))).push(
            ("lines"@, JsonV::Whole(table::tally_at(sizes.lines, id))),
        ).push(("eff"@, counts_json(table::items_at(eff.packages, id)))).push(
            ("deps"@, called_all(s, g, deps)),
        ).push(("ext"@, JsonV::Whole(externals(deps, deps.len()) as u64))).push(
            ("bins"@, texts_json(table::items_at(links.bins, id))),
        ),
    )
}

fn write_package(
    stream: &Stream,
    g: &Graph,
    sizes: &Sizes,
    eff: &Effects,
    links: &Links,
    node: &Node,
) -> (j: Json)
    ensures
        j.deep_view() == package_row(
            stream.deep_view(),
            g.deep_view(),
            sizes.deep_view(),
            eff.deep_view(),
            links.deep_view(),
            node.deep_view(),
        ),
{
    let id = node.id.0.as_str();
    let deps = list_at(&links.deps, id);
    let mut names: Vec<Json> = Vec::new();
    let mut outside: usize = 0;
    let mut i: usize = 0;
    while i < deps.len()
        invariant
            i <= deps.len(),
            outside <= i,
            outside == externals(deps.deep_view(), i as nat),
            names.deep_view() == Seq::new(
                i as nat,
                |k: int|
                    JsonV::Str(called(stream.deep_view(), g.deep_view(), deps.deep_view()[k])),
            ),
        decreases deps.len() - i,
    {
        assert(deps.deep_view()[i as int] == deps@[i as int]@);
        if text::starts_with(deps[i].as_str(), "ext:") {
            outside += 1;
        }
        text::push(&mut names, Json::Str(find_called(stream, g, deps[i].as_str())));
        assert(names.deep_view() =~= Seq::new(
            (i + 1) as nat,
            |k: int| JsonV::Str(called(stream.deep_view(), g.deep_view(), deps.deep_view()[k])),
        ));
        i += 1;
    }
    let mut row = json::no_fields();
    crate::json::add(&mut row, "id", Json::str(id));
    crate::json::add(&mut row, "name", Json::Str(or(attr(node, "name"), id)));
    crate::json::add(&mut row, "files", Json::Whole(tally(&sizes.files, id)));
    crate::json::add(&mut row, "lines", Json::Whole(tally(&sizes.lines, id)));
    crate::json::add(&mut row, "eff", write_counts(&eff.packages, id));
    crate::json::add(&mut row, "deps", Json::list(names));
    crate::json::add(&mut row, "ext", Json::Whole(outside as u64));
    crate::json::add(&mut row, "bins", write_texts(&list_at(&links.bins, id)));
    assert(row.deep_view() =~= package_row(
        stream.deep_view(),
        g.deep_view(),
        sizes.deep_view(),
        eff.deep_view(),
        links.deep_view(),
        node.deep_view(),
    )->Object_0);
    Json::object(row)
}

pub open spec fn file_row(g: GraphV, sizes: SizesV, eff: EffectsV, node: NodeV) -> JsonV {
    let id = node.id;
    JsonV::Object(
        seq![("id"@, JsonV::Str(id))].push(
            ("path"@, JsonV::Str(or_else(attr_of(node, "path"@), id))),
        ).push(("lines"@, JsonV::Whole(lines_in(node)))).push(
            ("pkg"@, text_or_null(holder(g, id, "pkg:"@))),
        ).push(("n"@, JsonV::Whole(table::tally_at(sizes.symbols, id)))).push(
            ("eff"@, counts_json(table::items_at(eff.files, id))),
        ),
    )
}

fn write_file(g: &Graph, sizes: &Sizes, eff: &Effects, node: &Node) -> (j: Json)
    ensures
        j.deep_view() == file_row(
            g.deep_view(),
            sizes.deep_view(),
            eff.deep_view(),
            node.deep_view(),
        ),
{
    let id = node.id.0.as_str();
    let mut row = json::no_fields();
    crate::json::add(&mut row, "id", Json::str(id));
    crate::json::add(&mut row, "path", Json::Str(or(attr(node, "path"), id)));
    crate::json::add(&mut row, "lines", Json::Whole(lines_of(node)));
    crate::json::add(&mut row, "pkg", write_text(&climb(g, id, "pkg:")));
    crate::json::add(&mut row, "n", Json::Whole(tally(&sizes.symbols, id)));
    crate::json::add(&mut row, "eff", write_counts(&eff.files, id));
    assert(row.deep_view() =~= file_row(
        g.deep_view(),
        sizes.deep_view(),
        eff.deep_view(),
        node.deep_view(),
    )->Object_0);
    Json::object(row)
}

pub open spec fn fields_json(fields: Seq<(Text, Text)>) -> JsonV {
    JsonV::List(
        Seq::new(
            fields.len(),
            |i: int| JsonV::List(seq![JsonV::Str(fields[i].0)].push(JsonV::Str(fields[i].1))),
        ),
    )
}

fn write_fields(lists: &Table<Vec<(String, String)>>, name: &str) -> (j: Json)
    ensures
        j.deep_view() == fields_json(table::items_at(lists.deep_view(), name@)),
{
    let mut items: Vec<Json> = Vec::new();
    if let Some(fields) = lists.get(name) {
        let ghost held = fields.deep_view();
        let mut i: usize = 0;
        while i < fields.len()
            invariant
                i <= fields.len(),
                held == fields.deep_view(),
                items.deep_view() == Seq::new(
                    i as nat,
                    |k: int| JsonV::List(seq![JsonV::Str(held[k].0)].push(JsonV::Str(held[k].1))),
                ),
            decreases fields.len() - i,
        {
            let mut pair: Vec<Json> = Vec::new();
            assert(pair.deep_view() =~= seq![]);
            text::push(&mut pair, Json::str(fields[i].0.as_str()));
            text::push(&mut pair, Json::str(fields[i].1.as_str()));
            assert(pair.deep_view() =~= seq![JsonV::Str(held[i as int].0)].push(
                JsonV::Str(held[i as int].1),
            ));
            text::push(&mut items, Json::list(pair));
            assert(items.deep_view() =~= Seq::new(
                (i + 1) as nat,
                |k: int| JsonV::List(seq![JsonV::Str(held[k].0)].push(JsonV::Str(held[k].1))),
            ));
            i += 1;
        }
    }
    assert(items.deep_view() =~= fields_json(
        table::items_at(lists.deep_view(), name@),
    )->List_0);
    Json::list(items)
}

pub open spec fn type_row(
    s: StreamV,
    g: GraphV,
    links: LinksV,
    ty: Text,
    symbol: Text,
    declaration: NodeV,
) -> JsonV {
    JsonV::Object(
        seq![("id"@, JsonV::Str(ty))].push(("name"@, JsonV::Str(base_name(s, g, ty)))).push(
            ("k"@, JsonV::Str(or_else(attr_of(declaration, "lang:kind"@), "type"@))),
        ).push(("pkg"@, text_or_null(package_of(s, g, symbol)))).push(
            ("file"@, text_or_null(path_of(s, g, symbol))),
        ).push(("lines"@, JsonV::Whole(lines_in(declaration)))).push(
            ("fields"@, fields_json(table::items_at(links.fields, ty))),
        ).push(("uses"@, JsonV::Whole(table::tally_at(links.used, ty)))),
    )
}

fn write_type(
    stream: &Stream,
    g: &Graph,
    links: &Links,
    ty: &str,
    symbol: &str,
    declaration: &Node,
) -> (j: Json)
    ensures
        j.deep_view() == type_row(
            stream.deep_view(),
            g.deep_view(),
            links.deep_view(),
            ty@,
            symbol@,
            declaration.deep_view(),
        ),
{
    let mut row = json::no_fields();
    crate::json::add(&mut row, "id", Json::str(ty));
    crate::json::add(&mut row, "name", Json::Str(base_of(stream, g, ty)));
    crate::json::add(&mut row, "k", Json::Str(or(attr(declaration, "lang:kind"), "type")));
    crate::json::add(&mut row, "pkg", write_text(&find_package(stream, g, symbol)));
    crate::json::add(&mut row, "file", write_text(&find_path(stream, g, symbol)));
    crate::json::add(&mut row, "lines", Json::Whole(lines_of(declaration)));
    crate::json::add(&mut row, "fields", write_fields(&links.fields, ty));
    crate::json::add(&mut row, "uses", Json::Whole(tally(&links.used, ty)));
    assert(row.deep_view() =~= type_row(
        stream.deep_view(),
        g.deep_view(),
        links.deep_view(),
        ty@,
        symbol@,
        declaration.deep_view(),
    )->Object_0);
    Json::object(row)
}

pub open spec fn type_rows(s: StreamV, g: GraphV, links: LinksV, n: nat) -> Seq<JsonV>
    decreases n,
{
    if n == 0 {
        seq![]
    } else {
        let before = type_rows(s, g, links, (n - 1) as nat);
        let (ty, symbol) = links.defined[n - 1];
        match node_of(s, g, symbol) {
            Some(declaration) => before.push(type_row(s, g, links, ty, symbol, declaration)),
            None => before,
        }
    }
}

fn list_types(stream: &Stream, g: &Graph, links: &Links) -> (rows: Vec<Json>)
    ensures
        rows.deep_view() == type_rows(
            stream.deep_view(),
            g.deep_view(),
            links.deep_view(),
            links.deep_view().defined.len(),
        ),
{
    let defined = &links.defined;
    let mut rows: Vec<Json> = Vec::new();
    assert(rows.deep_view() =~= seq![]);
    let end: usize = defined.len();
    let mut i: usize = 0;
    while i < end
        invariant
            i <= end == defined.deep_view().len(),
            *defined == links.defined,
            rows.deep_view() == type_rows(
                stream.deep_view(),
                g.deep_view(),
                links.deep_view(),
                i as nat,
            ),
        decreases end - i,
    {
        let ty = defined.name_at(i).as_str();
        let symbol = defined.value_at(i).as_str();
        if let Some(declaration) = node_at(stream, g, symbol) {
            text::push(&mut rows, write_type(stream, g, links, ty, symbol, declaration));
        }
        i += 1;
    }
    rows
}

// --- functions ---------------------------------------------------------------

pub open spec fn is_function(node: NodeV) -> bool {
    attr_of(node, "lang:kind"@) == Some("fn"@) || attr_of(node, "lang:kind"@) == Some("method"@)
}

fn function(node: &Node) -> (r: bool)
    ensures
        r == is_function(node.deep_view()),
{
    match json::field(&node.attrs, "lang:kind") {
        Some(Json::Str(s)) => {
            text::same(s.as_str(), "fn") || text::same(s.as_str(), "method")
        },
        _ => false,
    }
}

/// `Result<_, String>`: an error that carries no structure.
pub open spec fn is_unstructured(s: StreamV, g: GraphV, links: LinksV, ty: Text) -> bool {
    let args = table::items_at(links.args, ty);
    base_name(s, g, ty) == "Result"@ && exists|i: int|
        0 <= i < args.len() && (#[trigger] args[i]).position == 1 && base_name(s, g, args[i].ty)
            == "String"@
}

fn unstructured_error(stream: &Stream, g: &Graph, links: &Links, ty: &str) -> (r: bool)
    ensures
        r == is_unstructured(stream.deep_view(), g.deep_view(), links.deep_view(), ty@),
{
    if !text::same(base_of(stream, g, ty).as_str(), "Result") {
        return false;
    }
    if let Some(args) = links.args.get(ty) {
        let ghost held = table::items_at(links.deep_view().args, ty@);
        let mut i: usize = 0;
        while i < args.len()
            invariant
                i <= args.len(),
                held == args.deep_view(),
                held == table::items_at(links.deep_view().args, ty@),
                base_name(stream.deep_view(), g.deep_view(), ty@) == "Result"@,
                forall|k: int|
                    0 <= k < i ==> !((#[trigger] held[k]).position == 1 && base_name(
                        stream.deep_view(),
                        g.deep_view(),
                        held[k].ty,
                    ) == "String"@),
            decreases args.len() - i,
        {
            assert(held[i as int] == args@[i as int].deep_view());
            if args[i].position == 1 && text::same(
                base_of(stream, g, args[i].ty.as_str()).as_str(),
                "String",
            ) {
                return true;
            }
            i += 1;
        }
    }
    false
}

/// Whether a function is worth a second look. A list of every function is a
/// file listing, not a finding.
pub open spec fn is_notable(s: StreamV, g: GraphV, eff: EffectsV, links: LinksV, id: Text) -> bool {
    table::items_at(eff.symbols, id).len() > 0 || table::items_at(links.params, id).len() >= 3
        || match table::lookup(links.returns, id) {
        Some(ty) => is_unstructured(s, g, links, ty),
        None => false,
    }
}

fn notable(stream: &Stream, g: &Graph, eff: &Effects, links: &Links, id: &str) -> (r: bool)
    ensures
        r == is_notable(
            stream.deep_view(),
            g.deep_view(),
            eff.deep_view(),
            links.deep_view(),
            id@,
        ),
{
    let does: bool = match eff.symbols.get(id) {
        Some(kinds) => kinds.len() > 0,
        None => false,
    };
    let takes: bool = match links.params.get(id) {
        Some(params) => params.len() >= 3,
        None => false,
    };
    does || takes || match links.returns.get(id) {
        Some(ty) => unstructured_error(stream, g, links, ty.as_str()),
        None => false,
    }
}

pub open spec fn param_json(s: StreamV, g: GraphV, k: Attribution, p: SlotV) -> JsonV {
    JsonV::List(
        seq![JsonV::Str(p.name)].push(JsonV::Str(written_as(s, g, p.ty))).push(
            annotated(s, g, k, p.ty),
        ),
    )
}

pub open spec fn params_json(s: StreamV, g: GraphV, k: Attribution, params: Seq<SlotV>) -> JsonV {
    JsonV::List(Seq::new(params.len(), |i: int| param_json(s, g, k, params[i])))
}

fn write_params(stream: &Stream, g: &Graph, t: &Types, params: &Vec<Slot>) -> (j: Json)
    ensures
        j.deep_view() == params_json(
            stream.deep_view(),
            g.deep_view(),
            known(t.links.deep_view(), t.owners.deep_view()),
            params.deep_view(),
        ),
{
    let ghost k = known(t.links.deep_view(), t.owners.deep_view());
    let ghost held = params.deep_view();
    let mut items: Vec<Json> = Vec::new();
    let mut i: usize = 0;
    while i < params.len()
        invariant
            i <= params.len(),
            held == params.deep_view(),
            k == known(t.links.deep_view(), t.owners.deep_view()),
            items.deep_view() == Seq::new(
                i as nat,
                |n: int| param_json(stream.deep_view(), g.deep_view(), k, held[n]),
            ),
        decreases params.len() - i,
    {
        let p = &params[i];
        assert(held[i as int] == p.deep_view());
        let mut one: Vec<Json> = Vec::new();
        assert(one.deep_view() =~= seq![]);
        text::push(&mut one, Json::str(p.name.as_str()));
        text::push(&mut one, Json::Str(written(stream, g, p.ty.as_str())));
        text::push(&mut one, annotate(stream, g, t, p.ty.as_str()));
        assert(one.deep_view() =~= param_json(
            stream.deep_view(),
            g.deep_view(),
            k,
            p.deep_view(),
        )->List_0);
        text::push(&mut items, Json::list(one));
        assert(items.deep_view() =~= Seq::new(
            (i + 1) as nat,
            |n: int| param_json(stream.deep_view(), g.deep_view(), k, held[n]),
        ));
        i += 1;
    }
    Json::list(items)
}

pub open spec fn returns_json(s: StreamV, g: GraphV, k: Attribution, ty: Option<Text>) -> JsonV {
    match ty {
        Some(ty) => JsonV::List(
            seq![JsonV::Str(written_as(s, g, ty))].push(annotated(s, g, k, ty)),
        ),
        None => JsonV::Null,
    }
}

fn write_returns(stream: &Stream, g: &Graph, t: &Types, id: &str) -> (j: Json)
    ensures
        j.deep_view() == returns_json(
            stream.deep_view(),
            g.deep_view(),
            known(t.links.deep_view(), t.owners.deep_view()),
            table::lookup(t.links.deep_view().returns, id@),
        ),
{
    match t.links.returns.get(id) {
        Some(ty) => {
            let mut pair: Vec<Json> = Vec::new();
            assert(pair.deep_view() =~= seq![]);
            text::push(&mut pair, Json::Str(written(stream, g, ty.as_str())));
            text::push(&mut pair, annotate(stream, g, t, ty.as_str()));
            assert(pair.deep_view() =~= returns_json(
                stream.deep_view(),
                g.deep_view(),
                known(t.links.deep_view(), t.owners.deep_view()),
                Some(ty@),
            )->List_0);
            Json::list(pair)
        },
        None => Json::Null,
    }
}

pub open spec fn names_json(names: Seq<(Text, ())>) -> JsonV {
    JsonV::List(Seq::new(names.len(), |i: int| JsonV::Str(names[i].0)))
}

fn write_names(sets: &Table<Names>, name: &str) -> (j: Json)
    ensures
        j.deep_view() == names_json(table::items_at(sets.deep_view(), name@)),
{
    match sets.get(name) {
        Some(set) => {
            let names = set.names();
            let j = write_texts(&names);
            assert(j.deep_view()->List_0 =~= names_json(set.deep_view())->List_0);
            j
        },
        None => {
            let none: Vec<Json> = Vec::new();
            assert(none.deep_view() =~= names_json(seq![])->List_0);
            Json::list(none)
        },
    }
}

pub open spec fn function_row(
    s: StreamV,
    g: GraphV,
    eff: EffectsV,
    links: LinksV,
    k: Attribution,
    node: NodeV,
) -> JsonV {
    let id = node.id;
    let params = table::items_at(links.params, id);
    JsonV::Object(
        seq![("id"@, JsonV::Str(id))].push(
            ("name"@, JsonV::Str(or_else(attr_of(node, "name"@), id))),
        ).push(("k"@, JsonV::Str(or_else(attr_of(node, "lang:kind"@), "fn"@)))).push(
            ("pkg"@, text_or_null(package_of(s, g, id))),
        ).push(("file"@, text_or_null(path_of(s, g, id)))).push(
            ("lines"@, JsonV::Whole(lines_in(node))),
        ).push(("p"@, params_json(s, g, k, arranged(params, params.len())))).push(
            ("r"@, returns_json(s, g, k, table::lookup(links.returns, id))),
        ).push(("eff"@, names_json(table::items_at(eff.symbols, id)))),
    )
}

fn write_function(stream: &Stream, g: &Graph, eff: &Effects, t: &Types, node: &Node) -> (j: Json)
    ensures
        j.deep_view() == function_row(
            stream.deep_view(),
            g.deep_view(),
            eff.deep_view(),
            t.links.deep_view(),
            known(t.links.deep_view(), t.owners.deep_view()),
            node.deep_view(),
        ),
{
    let id = node.id.0.as_str();
    let params = slots_at(&t.links.params, id);
    let mut row = json::no_fields();
    crate::json::add(&mut row, "id", Json::str(id));
    crate::json::add(&mut row, "name", Json::Str(or(attr(node, "name"), id)));
    crate::json::add(&mut row, "k", Json::Str(or(attr(node, "lang:kind"), "fn")));
    crate::json::add(&mut row, "pkg", write_text(&find_package(stream, g, id)));
    crate::json::add(&mut row, "file", write_text(&find_path(stream, g, id)));
    crate::json::add(&mut row, "lines", Json::Whole(lines_of(node)));
    crate::json::add(&mut row, "p", write_params(stream, g, t, &params));
    crate::json::add(&mut row, "r", write_returns(stream, g, t, id));
    crate::json::add(&mut row, "eff", write_names(&eff.symbols, id));
    assert(row.deep_view() =~= function_row(
        stream.deep_view(),
        g.deep_view(),
        eff.deep_view(),
        t.links.deep_view(),
        known(t.links.deep_view(), t.owners.deep_view()),
        node.deep_view(),
    )->Object_0);
    Json::object(row)
}

// --- the dataset -------------------------------------------------------------

/// The rows of the first `n` nodes.
pub struct RowsV {
    pub packages: Seq<JsonV>,
    pub files: Seq<JsonV>,
    /// Those that are notable.
    pub functions: Seq<JsonV>,
    /// How many functions there are in all.
    pub all_functions: nat,
    pub lines: u64,
}

pub struct Rows {
    pub packages: Vec<Json>,
    pub files: Vec<Json>,
    pub functions: Vec<Json>,
    pub all_functions: usize,
    pub lines: u64,
}

impl DeepView for Rows {
    type V = RowsV;

    open spec fn deep_view(&self) -> RowsV {
        RowsV {
            packages: self.packages.deep_view(),
            files: self.files.deep_view(),
            functions: self.functions.deep_view(),
            all_functions: self.all_functions as nat,
            lines: self.lines,
        }
    }
}

pub open spec fn row_step(
    s: StreamV,
    g: GraphV,
    sizes: SizesV,
    eff: EffectsV,
    links: LinksV,
    k: Attribution,
    st: RowsV,
    node: NodeV,
) -> RowsV {
    RowsV {
        packages: if node.kind == NodeKind::Package {
            st.packages.push(package_row(s, g, sizes, eff, links, node))
        } else {
            st.packages
        },
        files: if node.kind == NodeKind::File {
            st.files.push(file_row(g, sizes, eff, node))
        } else {
            st.files
        },
        functions: if is_function(node) && is_notable(s, g, eff, links, node.id) {
            st.functions.push(function_row(s, g, eff, links, k, node))
        } else {
            st.functions
        },
        all_functions: if is_function(node) {
            st.all_functions + 1
        } else {
            st.all_functions
        },
        lines: if node.kind == NodeKind::File {
            table::more(st.lines, lines_in(node))
        } else {
            st.lines
        },
    }
}

pub open spec fn rows_in(
    s: StreamV,
    g: GraphV,
    sizes: SizesV,
    eff: EffectsV,
    links: LinksV,
    k: Attribution,
    n: nat,
) -> RowsV
    decreases n,
{
    if n == 0 {
        RowsV { packages: seq![], files: seq![], functions: seq![], all_functions: 0, lines: 0 }
    } else {
        row_step(
            s,
            g,
            sizes,
            eff,
            links,
            k,
            rows_in(s, g, sizes, eff, links, k, (n - 1) as nat),
            s.nodes[n - 1],
        )
    }
}

/// How many of the first `n` nodes are functions.
pub open spec fn functions_in(nodes: Seq<NodeV>, n: nat) -> nat
    decreases n,
{
    if n == 0 {
        0
    } else {
        functions_in(nodes, (n - 1) as nat) + if is_function(nodes[n - 1]) {
            1nat
        } else {
            0nat
        }
    }
}

/// Every function is counted, listed or not, and no more are listed than are
/// counted.
pub proof fn lemma_functions_counted(
    s: StreamV,
    g: GraphV,
    sizes: SizesV,
    eff: EffectsV,
    links: LinksV,
    k: Attribution,
    n: nat,
)
    ensures
        ({
            let rows = rows_in(s, g, sizes, eff, links, k, n);
            rows.all_functions == functions_in(s.nodes, n) && rows.functions.len()
                <= rows.all_functions
        }),
    decreases n,
{
    if n > 0 {
        lemma_functions_counted(s, g, sizes, eff, links, k, (n - 1) as nat);
    }
}

// --- what the rows show ------------------------------------------------------

/// A thing stands in what was last said to contain it.
pub proof fn lemma_parent(edges: Seq<EdgeV>, n: nat, last: int)
    requires
        0 <= last < n <= edges.len(),
        edges[last].kind == EdgeKind::Contains,
        forall|j: int|
            last < j < n ==> (#[trigger] edges[j]).kind != EdgeKind::Contains || edges[j].to
                != edges[last].to,
    ensures
        table::lookup(parents(edges, n), edges[last].to) == Some(edges[last].from),
    decreases n,
{
    let m = (n - 1) as nat;
    let e = edges[n - 1];
    table::lemma_put_lookup(parents(edges, m), e.to, e.from, edges[last].to);
    if last < m {
        lemma_parent(edges, m, last);
    }
}

/// A thing that nothing was said to contain stands in nothing.
pub proof fn lemma_no_parent(edges: Seq<EdgeV>, n: nat, id: Text)
    requires
        n <= edges.len(),
        forall|j: int|
            0 <= j < n ==> (#[trigger] edges[j]).kind != EdgeKind::Contains || edges[j].to != id,
    ensures
        table::lookup(parents(edges, n), id) is None,
    decreases n,
{
    if n > 0 {
        let m = (n - 1) as nat;
        let e = edges[n - 1];
        lemma_no_parent(edges, m, id);
        table::lemma_put_lookup(parents(edges, m), e.to, e.from, id);
    }
}

/// What holds a thing has the prefix that is asked for, and is the nearest: the
/// thing itself, or what it stands in, or what holds that.
pub proof fn lemma_holder_nearest(g: GraphV, id: Text, prefix: Text)
    ensures
        holder(g, id, prefix) matches Some(h) ==> text::has_prefix(h, prefix),
        text::has_prefix(id, prefix) ==> holder(g, id, prefix) == Some(id),
        !text::has_prefix(id, prefix) && table::lookup(g.parents, id) is None ==> holder(
            g,
            id,
            prefix,
        ) is None,
        forall|above: Text|
            !text::has_prefix(id, prefix) && #[trigger] table::lookup(g.parents, id) == Some(above)
                && holder(g, id, prefix) is Some ==> holder(g, id, prefix) == holder(
                g,
                above,
                prefix,
            ),
        forall|above: Text|
            !text::has_prefix(id, prefix) && #[trigger] table::lookup(g.parents, id) == Some(above)
                && text::has_prefix(above, prefix) ==> holder(g, id, prefix) == Some(above),
{
    reveal_with_fuel(climbed, 3);
    lemma_climbed(g, id, prefix, REACH as nat);
    if let Some(above) = table::lookup(g.parents, id) {
        lemma_climbed(g, above, prefix, 63);
    }
}

proof fn lemma_climbed(g: GraphV, at: Text, prefix: Text, steps: nat)
    ensures
        climbed(g, at, prefix, steps) matches Some(h) ==> text::has_prefix(h, prefix) && climbed(
            g,
            at,
            prefix,
            steps + 1,
        ) == Some(h),
    decreases steps,
{
    if steps > 0 && !text::has_prefix(at, prefix) {
        if let Some(above) = table::lookup(g.parents, at) {
            lemma_climbed(g, above, prefix, (steps - 1) as nat);
        }
    }
}

/// There is one row for each package, in their order, one for each file, and the
/// lines of all are those of every file, added up.
pub proof fn lemma_rows_listed(
    s: StreamV,
    g: GraphV,
    sizes: SizesV,
    eff: EffectsV,
    links: LinksV,
    k: Attribution,
    n: nat,
)
    requires
        n <= s.nodes.len(),
    ensures
        ({
            let rows = rows_in(s, g, sizes, eff, links, k, n);
            let some = s.nodes.take(n as int);
            let lines = total(
                Seq::new(
                    n,
                    |i: int|
                        if s.nodes[i].kind == NodeKind::File {
                            lines_said(s.nodes[i])
                        } else {
                            0
                        },
                ),
            );
            &&& rows.packages == some.filter(|x: NodeV| x.kind == NodeKind::Package).map_values(
                |x: NodeV| package_row(s, g, sizes, eff, links, x),
            )
            &&& rows.files == some.filter(|x: NodeV| x.kind == NodeKind::File).map_values(
                |x: NodeV| file_row(g, sizes, eff, x),
            )
            &&& rows.functions == some.filter(
                |x: NodeV| is_function(x) && is_notable(s, g, eff, links, x.id),
            ).map_values(|x: NodeV| function_row(s, g, eff, links, k, x))
            &&& rows.all_functions == some.filter(|x: NodeV| is_function(x)).len()
            &&& rows.lines == if lines <= u64::MAX {
                lines
            } else {
                u64::MAX as nat
            }
        }),
    decreases n,
{
    reveal(Seq::filter);
    let each = Seq::new(
        n,
        |i: int|
            if s.nodes[i].kind == NodeKind::File {
                lines_said(s.nodes[i])
            } else {
                0
            },
    );
    let some = s.nodes.take(n as int);
    let is_pkg = |x: NodeV| x.kind == NodeKind::Package;
    let is_file = |x: NodeV| x.kind == NodeKind::File;
    let is_fn = |x: NodeV| is_function(x) && is_notable(s, g, eff, links, x.id);
    let pkg = |x: NodeV| package_row(s, g, sizes, eff, links, x);
    let file = |x: NodeV| file_row(g, sizes, eff, x);
    let func = |x: NodeV| function_row(s, g, eff, links, k, x);
    let rows = rows_in(s, g, sizes, eff, links, k, n);
    if n > 0 {
        let m = (n - 1) as nat;
        lemma_rows_listed(s, g, sizes, eff, links, k, m);
        let front = s.nodes.take(m as int);
        assert(some.drop_last() =~= front);
        assert(some.last() == s.nodes[n - 1]);
        assert(each.drop_last() =~= Seq::new(
            m,
            |i: int|
                if s.nodes[i].kind == NodeKind::File {
                    lines_said(s.nodes[i])
                } else {
                    0
                },
        ));
        let node = s.nodes[n - 1];
        if is_pkg(node) {
            assert(front.filter(is_pkg).push(node).map_values(pkg) =~= front.filter(
                is_pkg,
            ).map_values(pkg).push(pkg(node)));
        }
        if is_file(node) {
            assert(front.filter(is_file).push(node).map_values(file) =~= front.filter(
                is_file,
            ).map_values(file).push(file(node)));
        }
        if is_fn(node) {
            assert(front.filter(is_fn).push(node).map_values(func) =~= front.filter(
                is_fn,
            ).map_values(func).push(func(node)));
        }
    } else {
        assert(some =~= seq![]);
        assert(rows.packages =~= some.filter(is_pkg).map_values(pkg));
        assert(rows.files =~= some.filter(is_file).map_values(file));
        assert(rows.functions =~= some.filter(is_fn).map_values(func));
    }
}

/// A package's row shows its id, what it is called, the files that it holds and
/// their lines, what it depends on and the programs it builds.
#[verifier::rlimit(40)]
pub proof fn lemma_package_shown(s: StreamV, node: NodeV)
    ensures
        ({
            let g = graph_of(s);
            let links = links_in(s, g, s.edges.len());
            let row = package_row(
                s,
                g,
                sizes(s, g, s.nodes.len()),
                effects_in(s, g, s.edges.len()),
                links,
                node,
            );
            let lines = total(lines_held(s, g, node.id, s.nodes.len()));
            let files = total(held_by(s, g, NodeKind::File, "pkg:"@, node.id, s.nodes.len()));
            let deps = table::items_at(links.deps, node.id);
            &&& json::field_of(row, "id"@) == Some(JsonV::Str(node.id))
            &&& table::lookup(node.attrs, "name"@) matches Some(JsonV::Str(name))
                ==> json::field_of(row, "name"@) == Some(JsonV::Str(name))
            &&& table::lookup(node.attrs, "name"@) is None ==> json::field_of(row, "name"@) == Some(
                JsonV::Str(node.id),
            )
            &&& lines <= u64::MAX ==> json::field_of(row, "lines"@) == Some(
                JsonV::Whole(lines as u64),
            )
            &&& files <= u64::MAX ==> json::field_of(row, "files"@) == Some(
                JsonV::Whole(files as u64),
            )
            &&& json::field_of(row, "deps"@) matches Some(JsonV::List(names)) && names.len()
                == deps.len() && forall|i: int|
                0 <= i < names.len() ==> #[trigger] names[i] == JsonV::Str(called(s, g, deps[i]))
            &&& json::field_of(row, "ext"@) == Some(
                JsonV::Whole(deps.filter(|id: Text| text::has_prefix(id, "ext:"@)).len() as u64),
            )
        }),
{
    broadcast use crate::table::lemma_lookup_push;

    reveal_strlit("id");
    reveal_strlit("name");
    reveal_strlit("files");
    reveal_strlit("lines");
    reveal_strlit("eff");
    reveal_strlit("deps");
    reveal_strlit("ext");
    reveal_strlit("bins");
    assert("name"@[0] == 'n' && "deps"@[0] == 'd' && "bins"@[0] == 'b');
    assert("files"@[0] == 'f' && "lines"@[0] == 'l' && "eff"@[1] == 'f' && "ext"@[1] == 'x');
    let g = graph_of(s);
    lemma_sizes_added(s, g, node.id, s.nodes.len());
    let deps = table::items_at(links_in(s, g, s.edges.len()).deps, node.id);
    lemma_externals(deps, deps.len());
    assert(deps.take(deps.len() as int) =~= deps);
    let first = seq![("id"@, JsonV::Str(node.id))];
    assert(table::lookup(first, "id"@) == Some(JsonV::Str(node.id)));
}

proof fn lemma_externals(deps: Seq<Text>, n: nat)
    requires
        n <= deps.len(),
    ensures
        externals(deps, n) == deps.take(n as int).filter(
            |id: Text| text::has_prefix(id, "ext:"@),
        ).len(),
    decreases n,
{
    reveal(Seq::filter);
    if n > 0 {
        lemma_externals(deps, (n - 1) as nat);
        assert(deps.take(n as int).drop_last() =~= deps.take(n - 1));
        assert(deps.take(n as int).last() == deps[n - 1]);
    }
}

/// A file's row shows its id, its path, its own lines, the package that holds it
/// and how many symbols it holds.
#[verifier::rlimit(40)]
pub proof fn lemma_file_shown(s: StreamV, eff: EffectsV, node: NodeV)
    ensures
        ({
            let g = graph_of(s);
            let row = file_row(g, sizes(s, g, s.nodes.len()), eff, node);
            let symbols = total(held_by(s, g, NodeKind::Symbol, "file:"@, node.id, s.nodes.len()));
            &&& json::field_of(row, "id"@) == Some(JsonV::Str(node.id))
            &&& table::lookup(node.attrs, "path"@) matches Some(JsonV::Str(path))
                ==> json::field_of(row, "path"@) == Some(JsonV::Str(path))
            &&& json::field_of(row, "lines"@) == Some(JsonV::Whole(lines_said(node) as u64))
            &&& holder(g, node.id, "pkg:"@) matches Some(pkg) ==> json::field_of(row, "pkg"@)
                == Some(JsonV::Str(pkg))
            &&& holder(g, node.id, "pkg:"@) is None ==> json::field_of(row, "pkg"@) == Some(
                JsonV::Null,
            )
            &&& symbols <= u64::MAX ==> json::field_of(row, "n"@) == Some(
                JsonV::Whole(symbols as u64),
            )
        }),
{
    broadcast use crate::table::lemma_lookup_push;

    reveal_strlit("id");
    reveal_strlit("path");
    reveal_strlit("lines");
    reveal_strlit("pkg");
    reveal_strlit("n");
    reveal_strlit("eff");
    assert("pkg"@[0] == 'p' && "eff"@[0] == 'e');
    assert("id"@.len() == 2 && "path"@.len() == 4 && "lines"@.len() == 5 && "n"@.len() == 1);
    let g = graph_of(s);
    lemma_sizes_added(s, g, node.id, s.nodes.len());
    let first = seq![("id"@, JsonV::Str(node.id))];
    assert(table::lookup(first, "id"@) == Some(JsonV::Str(node.id)));
    let path = ("path"@, JsonV::Str(or_else(attr_of(node, "path"@), node.id)));
    assert(first.skip(1) =~= seq![]);
    assert(table::lookup(first, "path"@) is None);
    assert(table::lookup(first.push(path), "path"@) == Some(path.1));
}

/// Whether no two packages have one id.
#[verifier::opaque]
pub open spec fn distinct_packages(s: StreamV) -> bool {
    forall|i: int, j: int|
        0 <= i < j < s.nodes.len() && s.nodes[i].kind == NodeKind::Package && s.nodes[j].kind
            == NodeKind::Package ==> (#[trigger] s.nodes[i]).id != (#[trigger] s.nodes[j]).id
}

/// Whether a node is a package that holds another.
pub open spec fn is_package_of(s: StreamV, g: GraphV, i: int, at: int) -> bool {
    0 <= at < s.nodes.len() && s.nodes[at].kind == NodeKind::Package && holder(
        g,
        s.nodes[i].id,
        "pkg:"@,
    ) == Some(s.nodes[at].id)
}

/// The lines of the first `m` nodes that are packages, by the first `n` nodes.
pub open spec fn lines_of_packages(s: StreamV, g: GraphV, m: nat, n: nat) -> Seq<nat> {
    Seq::new(
        m,
        |i: int|
            if s.nodes[i].kind == NodeKind::Package {
                total(lines_held(s, g, s.nodes[i].id, n))
            } else {
                0
            },
    )
}

proof fn lemma_one_more_file(s: StreamV, g: GraphV, m: nat, n: nat, at: int)
    requires
        m <= s.nodes.len(),
        0 < n <= s.nodes.len(),
        distinct_packages(s),
        s.nodes[n - 1].kind == NodeKind::File ==> 0 <= at < s.nodes.len() && s.nodes[at].kind
            == NodeKind::Package && holder(g, s.nodes[n - 1].id, "pkg:"@) == Some(s.nodes[at].id),
    ensures
        total(lines_of_packages(s, g, m, n)) == total(
            lines_of_packages(s, g, m, (n - 1) as nat),
        ) + if s.nodes[n - 1].kind == NodeKind::File && at < m {
            lines_said(s.nodes[n - 1])
        } else {
            0
        },
    decreases m,
{
    if m > 0 {
        let k = (m - 1) as nat;
        lemma_one_more_file(s, g, k, n, at);
        let now = lines_of_packages(s, g, m, n);
        let past = lines_of_packages(s, g, m, (n - 1) as nat);
        assert(now.drop_last() =~= lines_of_packages(s, g, k, n));
        assert(past.drop_last() =~= lines_of_packages(s, g, k, (n - 1) as nat));
        let pkg = s.nodes[m - 1];
        let held = lines_held(s, g, pkg.id, n);
        assert(held.drop_last() =~= lines_held(s, g, pkg.id, (n - 1) as nat));
        if pkg.kind == NodeKind::Package && s.nodes[n - 1].kind == NodeKind::File {
            reveal(distinct_packages);
            if at < m - 1 {
                assert(s.nodes[at].id != s.nodes[m - 1].id);
            } else if at > m - 1 {
                assert(s.nodes[m - 1].id != s.nodes[at].id);
            }
        }
    }
}

/// Where every file stands in a package of the stream, the lines of the packages
/// add up to the lines of all files.
pub proof fn lemma_packages_add_up(s: StreamV, g: GraphV, n: nat)
    requires
        n <= s.nodes.len(),
        distinct_packages(s),
        forall|i: int|
            0 <= i < n && (#[trigger] s.nodes[i]).kind == NodeKind::File ==> exists|at: int|
                #[trigger] is_package_of(s, g, i, at),
    ensures
        total(lines_of_packages(s, g, s.nodes.len(), n)) == total(
            Seq::new(
                n,
                |i: int|
                    if s.nodes[i].kind == NodeKind::File {
                        lines_said(s.nodes[i])
                    } else {
                        0
                    },
            ),
        ),
    decreases n,
{
    let each = Seq::new(
        n,
        |i: int|
            if s.nodes[i].kind == NodeKind::File {
                lines_said(s.nodes[i])
            } else {
                0
            },
    );
    if n > 0 {
        let m = (n - 1) as nat;
        lemma_packages_add_up(s, g, m);
        assert(each.drop_last() =~= Seq::new(
            m,
            |i: int|
                if s.nodes[i].kind == NodeKind::File {
                    lines_said(s.nodes[i])
                } else {
                    0
                },
        ));
        let at = if s.nodes[n - 1].kind == NodeKind::File {
            choose|at: int| #[trigger] is_package_of(s, g, n - 1, at)
        } else {
            0
        };
        lemma_one_more_file(s, g, s.nodes.len(), n, at);
    } else {
        lemma_nothing_held(s, g, s.nodes.len());
    }
}

proof fn lemma_nothing_held(s: StreamV, g: GraphV, m: nat)
    requires
        m <= s.nodes.len(),
    ensures
        total(lines_of_packages(s, g, m, 0)) == 0,
    decreases m,
{
    if m > 0 {
        lemma_nothing_held(s, g, (m - 1) as nat);
        let all = lines_of_packages(s, g, m, 0);
        assert(all.drop_last() =~= lines_of_packages(s, g, (m - 1) as nat, 0));
    }
}

fn read_rows(stream: &Stream, g: &Graph, sizes: &Sizes, eff: &Effects, t: &Types) -> (out: Rows)
    ensures
        out.deep_view() == rows_in(
            stream.deep_view(),
            g.deep_view(),
            sizes.deep_view(),
            eff.deep_view(),
            t.links.deep_view(),
            known(t.links.deep_view(), t.owners.deep_view()),
            stream.nodes@.len(),
        ),
{
    let ghost k = known(t.links.deep_view(), t.owners.deep_view());
    let nodes = &stream.nodes;
    let mut out = Rows {
        packages: Vec::new(),
        files: Vec::new(),
        functions: Vec::new(),
        all_functions: 0,
        lines: 0,
    };
    assert(out.packages.deep_view() =~= seq![]);
    assert(out.files.deep_view() =~= seq![]);
    assert(out.functions.deep_view() =~= seq![]);
    let mut i: usize = 0;
    while i < nodes.len()
        invariant
            i <= nodes.len(),
            *nodes == stream.nodes,
            out.all_functions <= i,
            k == known(t.links.deep_view(), t.owners.deep_view()),
            out.deep_view() == rows_in(
                stream.deep_view(),
                g.deep_view(),
                sizes.deep_view(),
                eff.deep_view(),
                t.links.deep_view(),
                k,
                i as nat,
            ),
        decreases nodes.len() - i,
    {
        let node = &nodes[i];
        assert(stream.deep_view().nodes[i as int] == node.deep_view());
        if node.kind == NodeKind::Package {
            text::push(
                &mut out.packages,
                write_package(stream, g, sizes, eff, &t.links, node),
            );
        }
        if node.kind == NodeKind::File {
            text::push(&mut out.files, write_file(g, sizes, eff, node));
            out.lines = table::sum(out.lines, lines_of(node));
        }
        if function(node) {
            out.all_functions += 1;
            if notable(stream, g, eff, &t.links, node.id.0.as_str()) {
                text::push(&mut out.functions, write_function(stream, g, eff, t, node));
            }
        }
        i += 1;
    }
    out
}

pub open spec fn analysis_json(meta: MetaV) -> JsonV {
    JsonV::Object(
        seq![("ms"@, whole_or_null(meta.analysed_ms))].push(
            ("fetch"@, whole_or_null(meta.fetched_ms)),
        ).push(("cqx"@, JsonV::Str(VERSION@))),
    )
}

pub open spec fn totals_json(s: StreamV, rows: RowsV, types: Seq<JsonV>) -> JsonV {
    JsonV::Object(
        seq![("types"@, JsonV::Whole(types.len() as u64))].push(
            ("functions"@, JsonV::Whole(rows.all_functions as u64)),
        ).push(("notable"@, JsonV::Whole(rows.functions.len() as u64))).push(
            ("nodes"@, JsonV::Whole(s.nodes.len() as u64)),
        ).push(("edges"@, JsonV::Whole(s.edges.len() as u64))).push(
            ("lines"@, JsonV::Whole(rows.lines)),
        ),
    )
}

pub open spec fn dataset_json(
    s: StreamV,
    rows: RowsV,
    types: Seq<JsonV>,
    effects: Seq<JsonV>,
    score: JsonV,
    history: JsonV,
    meta: MetaV,
) -> JsonV {
    JsonV::Object(
        seq![("repo"@, JsonV::Str(meta.repo))].push(("analysis"@, analysis_json(meta))).push(
            ("branch"@, JsonV::Str(meta.branch)),
        ).push(("remote"@, text_or_null(meta.remote))).push(
            ("commits_url"@, text_or_null(meta.commits_url)),
        ).push(("score"@, score)).push(("history"@, history)).push(
            ("packages"@, JsonV::List(rows.packages)),
        ).push(("files"@, JsonV::List(rows.files))).push(("types"@, JsonV::List(types))).push(
            ("functions"@, JsonV::List(rows.functions)),
        ).push(("effects"@, JsonV::List(effects))).push(("totals"@, totals_json(s, rows, types))),
    )
}

/// The dataset of a stream.
pub open spec fn dataset_of(s: StreamV, score: JsonV, history: JsonV, meta: MetaV) -> JsonV {
    let g = graph_of(s);
    let sizes = sizes(s, g, s.nodes.len());
    let eff = effects_in(s, g, s.edges.len());
    let links = links_in(s, g, s.edges.len());
    let k = known(links, owners(s, g, s.edges.len()));
    dataset_json(
        s,
        rows_in(s, g, sizes, eff, links, k, s.nodes.len()),
        type_rows(s, g, links, links.defined.len()),
        eff.rows,
        score,
        history,
        meta,
    )
}

fn write_analysis(meta: &Meta<'_>) -> (j: Json)
    ensures
        j.deep_view() == analysis_json(meta.deep_view()),
{
    let mut fields = json::no_fields();
    crate::json::add(&mut fields, "ms", write_whole(meta.analysed_ms));
    crate::json::add(&mut fields, "fetch", write_whole(meta.fetched_ms));
    crate::json::add(&mut fields, "cqx", Json::str(VERSION));
    assert(fields.deep_view() =~= analysis_json(meta.deep_view())->Object_0);
    Json::object(fields)
}

fn write_totals(stream: &Stream, rows: &Rows, types: &Vec<Json>) -> (j: Json)
    ensures
        j.deep_view() == totals_json(stream.deep_view(), rows.deep_view(), types.deep_view()),
{
    let mut fields = json::no_fields();
    crate::json::add(&mut fields, "types", Json::Whole(types.len() as u64));
    crate::json::add(&mut fields, "functions", Json::Whole(rows.all_functions as u64));
    crate::json::add(&mut fields, "notable", Json::Whole(rows.functions.len() as u64));
    crate::json::add(&mut fields, "nodes", Json::Whole(stream.nodes.len() as u64));
    crate::json::add(&mut fields, "edges", Json::Whole(stream.edges.len() as u64));
    crate::json::add(&mut fields, "lines", Json::Whole(rows.lines));
    assert(fields.deep_view() =~= totals_json(
        stream.deep_view(),
        rows.deep_view(),
        types.deep_view(),
    )->Object_0);
    Json::object(fields)
}

pub fn dataset(stream: &Stream, score: Json, history: Json, meta: &Meta<'_>) -> (j: Json)
    ensures
        j.deep_view() == dataset_of(
            stream.deep_view(),
            score.deep_view(),
            history.deep_view(),
            meta.deep_view(),
        ),
{
    let g = read_graph(stream);
    let sizes = read_sizes(stream, &g);
    let eff = read_effects(stream, &g);
    let links = read_links(stream, &g);
    let owners = read_owners(stream, &g);
    let types = list_types(stream, &g, &links);
    let t = Types { links, owners };
    let rows = read_rows(stream, &g, &sizes, &eff, &t);
    let totals = write_totals(stream, &rows, &types);
    let ghost shown = dataset_json(
        stream.deep_view(),
        rows.deep_view(),
        types.deep_view(),
        eff.rows.deep_view(),
        score.deep_view(),
        history.deep_view(),
        meta.deep_view(),
    );
    let mut fields = json::no_fields();
    crate::json::add(&mut fields, "repo", Json::str(meta.repo));
    crate::json::add(&mut fields, "analysis", write_analysis(meta));
    crate::json::add(&mut fields, "branch", Json::str(meta.branch));
    crate::json::add(&mut fields, "remote", write_str(meta.remote));
    crate::json::add(&mut fields, "commits_url", write_str(meta.commits_url));
    crate::json::add(&mut fields, "score", score);
    crate::json::add(&mut fields, "history", history);
    crate::json::add(&mut fields, "packages", Json::list(rows.packages));
    crate::json::add(&mut fields, "files", Json::list(rows.files));
    crate::json::add(&mut fields, "types", Json::list(types));
    crate::json::add(&mut fields, "functions", Json::list(rows.functions));
    crate::json::add(&mut fields, "effects", Json::list(eff.rows));
    crate::json::add(&mut fields, "totals", totals);
    assert(fields.deep_view() =~= shown->Object_0);
    Json::object(fields)
}

// --- what the links and their rows show --------------------------------------

/// What a package depends on is what its edges say, in their order.
pub proof fn lemma_deps_listed(s: StreamV, g: GraphV, id: Text, n: nat)
    requires
        n <= s.edges.len(),
    ensures
        table::items_at(links_in(s, g, n).deps, id) == s.edges.take(n as int).filter(
            |e: EdgeV| e.kind == EdgeKind::DependsOn && e.from == id,
        ).map_values(|e: EdgeV| e.to),
    decreases n,
{
    reveal(Seq::filter);
    let mine = |e: EdgeV| e.kind == EdgeKind::DependsOn && e.from == id;
    let item = |e: EdgeV| e.to;
    let all = s.edges.take(n as int);
    if n > 0 {
        lemma_deps_listed(s, g, id, (n - 1) as nat);
        let before = links_in(s, g, (n - 1) as nat);
        let e = s.edges[n - 1];
        let front = s.edges.take(n - 1);
        assert(all.drop_last() =~= front);
        assert(all.last() == e);
        if e.kind == EdgeKind::DependsOn {
            let held = table::items_at(before.deps, e.from);
            table::lemma_put_lookup(before.deps, e.from, held.push(item(e)), id);
            assert(links_in(s, g, n).deps == table::with_item(before.deps, e.from, item(e)));
        }
        if mine(e) {
            assert(front.filter(mine).push(e).map_values(item) =~= front.filter(mine).map_values(
                item,
            ).push(item(e)));
        }
    } else {
        assert(all.filter(mine).map_values(item) =~= seq![]);
    }
}

/// A function takes what its edges say, each by its name, its place and its type.
pub proof fn lemma_params_listed(s: StreamV, g: GraphV, id: Text, n: nat)
    requires
        n <= s.edges.len(),
    ensures
        table::items_at(links_in(s, g, n).params, id) == s.edges.take(n as int).filter(
            |e: EdgeV| e.kind == EdgeKind::Param && e.from == id,
        ).map_values(|e: EdgeV| SlotV {
                position: match table::lookup(e.attrs, "position"@) {
                    Some(JsonV::Whole(n)) => n,
                    _ => 0,
                },
                name: match table::lookup(e.attrs, "name"@) {
                    Some(JsonV::Str(name)) => name,
                    _ => "_"@,
                },
                ty: e.to,
            }),
    decreases n,
{
    reveal(Seq::filter);
    let mine = |e: EdgeV| e.kind == EdgeKind::Param && e.from == id;
    let item = |e: EdgeV| SlotV {
                position: match table::lookup(e.attrs, "position"@) {
                    Some(JsonV::Whole(n)) => n,
                    _ => 0,
                },
                name: match table::lookup(e.attrs, "name"@) {
                    Some(JsonV::Str(name)) => name,
                    _ => "_"@,
                },
                ty: e.to,
            };
    let all = s.edges.take(n as int);
    if n > 0 {
        lemma_params_listed(s, g, id, (n - 1) as nat);
        let before = links_in(s, g, (n - 1) as nat);
        let e = s.edges[n - 1];
        let front = s.edges.take(n - 1);
        assert(all.drop_last() =~= front);
        assert(all.last() == e);
        if e.kind == EdgeKind::Param {
            let held = table::items_at(before.params, e.from);
            table::lemma_put_lookup(before.params, e.from, held.push(item(e)), id);
            assert(links_in(s, g, n).params == table::with_item(before.params, e.from, item(e)));
        }
        if mine(e) {
            assert(front.filter(mine).push(e).map_values(item) =~= front.filter(mine).map_values(
                item,
            ).push(item(e)));
        }
    } else {
        assert(all.filter(mine).map_values(item) =~= seq![]);
    }
}

/// A type is made of what its edges say, each at its place.
pub proof fn lemma_args_listed(s: StreamV, g: GraphV, id: Text, n: nat)
    requires
        n <= s.edges.len(),
    ensures
        table::items_at(links_in(s, g, n).args, id) == s.edges.take(n as int).filter(
            |e: EdgeV| e.kind == EdgeKind::TypeArg && e.from == id,
        ).map_values(|e: EdgeV| SlotV {
                position: match table::lookup(e.attrs, "position"@) {
                    Some(JsonV::Whole(n)) => n,
                    _ => 0,
                },
                name: seq![],
                ty: e.to,
            }),
    decreases n,
{
    reveal(Seq::filter);
    let mine = |e: EdgeV| e.kind == EdgeKind::TypeArg && e.from == id;
    let item = |e: EdgeV| SlotV {
                position: match table::lookup(e.attrs, "position"@) {
                    Some(JsonV::Whole(n)) => n,
                    _ => 0,
                },
                name: seq![],
                ty: e.to,
            };
    let all = s.edges.take(n as int);
    if n > 0 {
        lemma_args_listed(s, g, id, (n - 1) as nat);
        let before = links_in(s, g, (n - 1) as nat);
        let e = s.edges[n - 1];
        let front = s.edges.take(n - 1);
        assert(all.drop_last() =~= front);
        assert(all.last() == e);
        if e.kind == EdgeKind::TypeArg {
            let held = table::items_at(before.args, e.from);
            table::lemma_put_lookup(before.args, e.from, held.push(item(e)), id);
            assert(links_in(s, g, n).args == table::with_item(before.args, e.from, item(e)));
        }
        if mine(e) {
            assert(front.filter(mine).push(e).map_values(item) =~= front.filter(mine).map_values(
                item,
            ).push(item(e)));
        }
    } else {
        assert(all.filter(mine).map_values(item) =~= seq![]);
    }
}

/// A type has the fields that its edges say, each with its type as it is written.
pub proof fn lemma_fields_listed(s: StreamV, g: GraphV, id: Text, n: nat)
    requires
        n <= s.edges.len(),
    ensures
        table::items_at(links_in(s, g, n).fields, id) == s.edges.take(n as int).filter(
            |e: EdgeV| e.kind == EdgeKind::HasField && e.from == id,
        ).map_values(|e: EdgeV| (
                match table::lookup(e.attrs, "name"@) {
                    Some(JsonV::Str(name)) => name,
                    _ => seq![],
                },
                written_as(s, g, e.to),
            )),
    decreases n,
{
    reveal(Seq::filter);
    let mine = |e: EdgeV| e.kind == EdgeKind::HasField && e.from == id;
    let item = |e: EdgeV| (
                match table::lookup(e.attrs, "name"@) {
                    Some(JsonV::Str(name)) => name,
                    _ => seq![],
                },
                written_as(s, g, e.to),
            );
    let all = s.edges.take(n as int);
    if n > 0 {
        lemma_fields_listed(s, g, id, (n - 1) as nat);
        let before = links_in(s, g, (n - 1) as nat);
        let e = s.edges[n - 1];
        let front = s.edges.take(n - 1);
        assert(all.drop_last() =~= front);
        assert(all.last() == e);
        if e.kind == EdgeKind::HasField {
            let held = table::items_at(before.fields, e.from);
            table::lemma_put_lookup(before.fields, e.from, held.push(item(e)), id);
            assert(links_in(s, g, n).fields == table::with_item(before.fields, e.from, item(e)));
        }
        if mine(e) {
            assert(front.filter(mine).push(e).map_values(item) =~= front.filter(mine).map_values(
                item,
            ).push(item(e)));
        }
    } else {
        assert(all.filter(mine).map_values(item) =~= seq![]);
    }
}

/// A type is used as often as something takes it, returns it, has it for a field
/// or is made of it.
pub proof fn lemma_uses_counted(s: StreamV, g: GraphV, ty: Text, n: nat)
    requires
        n <= s.edges.len(),
    ensures
        ({
            let uses = s.edges.take(n as int).filter(
                |e: EdgeV|
                    e.to == ty && (e.kind == EdgeKind::TypeArg || e.kind == EdgeKind::HasField
                        || e.kind == EdgeKind::Param || e.kind == EdgeKind::Returns),
            ).len();
            table::tally_at(links_in(s, g, n).used, ty) == if uses <= u64::MAX {
                uses
            } else {
                u64::MAX as nat
            }
        }),
    decreases n,
{
    reveal(Seq::filter);
    if n > 0 {
        lemma_uses_counted(s, g, ty, (n - 1) as nat);
        let before = links_in(s, g, (n - 1) as nat).used;
        let e = s.edges[n - 1];
        assert(s.edges.take(n as int).drop_last() =~= s.edges.take(n - 1));
        assert(s.edges.take(n as int).last() == e);
        table::lemma_put_lookup(before, e.to, table::more(table::tally_at(before, e.to), 1), ty);
    }
}

/// A function returns what was said last, and a type is defined by what said so
/// last.
pub proof fn lemma_last_said(s: StreamV, g: GraphV, n: nat, last: int)
    requires
        0 <= last < n <= s.edges.len(),
    ensures
        s.edges[last].kind == EdgeKind::Returns && (forall|j: int|
            last < j < n ==> (#[trigger] s.edges[j]).kind != EdgeKind::Returns || s.edges[j].from
                != s.edges[last].from) ==> table::lookup(
            links_in(s, g, n).returns,
            s.edges[last].from,
        ) == Some(s.edges[last].to),
        s.edges[last].kind == EdgeKind::Defines && (forall|j: int|
            last < j < n ==> (#[trigger] s.edges[j]).kind != EdgeKind::Defines || s.edges[j].to
                != s.edges[last].to) ==> table::lookup(
            links_in(s, g, n).defined,
            s.edges[last].to,
        ) == Some(s.edges[last].from),
    decreases n,
{
    let before = links_in(s, g, (n - 1) as nat);
    let e = s.edges[n - 1];
    table::lemma_put_lookup(before.returns, e.from, e.to, s.edges[last].from);
    table::lemma_put_lookup(before.defined, e.to, e.from, s.edges[last].to);
    if last < n - 1 {
        lemma_last_said(s, g, (n - 1) as nat, last);
    }
}

/// An effect's row shows its kind, the package it is in, who has it, what it
/// reaches, where it was seen first, and how its target came to be.
#[verifier::rlimit(60)]
pub proof fn lemma_effect_shown(s: StreamV, g: GraphV, e: EdgeV, kind: Text)
    requires
        e.ev.len() > 0,
    ensures
        ({
            let row = effect_row(s, g, e, kind);
            &&& json::field_of(row, "k"@) == Some(JsonV::Str(kind))
            &&& package_of(s, g, e.from) matches Some(pkg) ==> json::field_of(row, "pkg"@) == Some(
                JsonV::Str(pkg),
            )
            &&& named(s, g, e.from, "name"@) matches Some(name) ==> json::field_of(row, "sym"@)
                == Some(JsonV::Str(name))
            &&& named(s, g, e.to, "name"@) matches Some(name) ==> json::field_of(row, "to"@)
                == Some(JsonV::Str(name))
            &&& json::field_of(row, "file"@) == Some(JsonV::Str(e.ev[0].file))
            &&& json::field_of(row, "line"@) == Some(JsonV::Whole(e.ev[0].line.0 as u64))
            &&& json::field_of(row, "via"@) == table::lookup(e.attrs, "via"@)
            &&& json::field_of(row, "src"@) == table::lookup(e.attrs, "source_fn"@)
            &&& json::field_of(row, "env"@) == table::lookup(e.attrs, "env_var"@)
            &&& json::field_of(row, "form"@) == table::lookup(e.attrs, "form"@)
        }),
{
    broadcast use crate::table::lemma_lookup_push;

    reveal_strlit("k");
    reveal_strlit("pkg");
    reveal_strlit("sym");
    reveal_strlit("to");
    reveal_strlit("file");
    reveal_strlit("line");
    reveal_strlit("via");
    reveal_strlit("src");
    reveal_strlit("env");
    reveal_strlit("form");
    assert("k"@.len() == 1 && "to"@.len() == 2 && "pkg"@.len() == 3 && "file"@.len() == 4);
    assert("pkg"@[0] == 'p' && "sym"@[1] == 'y' && "via"@[0] == 'v' && "src"@[1] == 'r');
    assert("env"@[0] == 'e' && "sym"@[0] == 's' && "src"@[0] == 's');
    assert("file"@[0] == 'f' && "file"@[1] == 'i' && "line"@[0] == 'l' && "form"@[1] == 'o');
    let first = seq![("k"@, JsonV::Str(kind))];
    assert(first.skip(1) =~= seq![]);
    assert(table::lookup(first, "k"@) == Some(JsonV::Str(kind)));
    assert(forall|other: Text|
        other != "k"@ ==> #[trigger] table::lookup(first, other) is None);
}

/// A type's row shows its id, what it is called, the kind, the package, the file
/// and the lines of what declares it, its fields, and how often it is used.
#[verifier::rlimit(60)]
pub proof fn lemma_type_shown(
    s: StreamV,
    g: GraphV,
    links: LinksV,
    ty: Text,
    symbol: Text,
    declaration: NodeV,
)
    ensures
        ({
            let row = type_row(s, g, links, ty, symbol, declaration);
            let fields = table::items_at(links.fields, ty);
            &&& json::field_of(row, "id"@) == Some(JsonV::Str(ty))
            &&& json::field_of(row, "name"@) == Some(JsonV::Str(base_name(s, g, ty)))
            &&& table::lookup(declaration.attrs, "lang:kind"@) matches Some(JsonV::Str(kind))
                ==> json::field_of(row, "k"@) == Some(JsonV::Str(kind))
            &&& package_of(s, g, symbol) matches Some(pkg) ==> json::field_of(row, "pkg"@) == Some(
                JsonV::Str(pkg),
            )
            &&& path_of(s, g, symbol) matches Some(path) ==> json::field_of(row, "file"@) == Some(
                JsonV::Str(path),
            )
            &&& json::field_of(row, "lines"@) == Some(JsonV::Whole(lines_said(declaration) as u64))
            &&& json::field_of(row, "fields"@) matches Some(JsonV::List(list)) && list.len()
                == fields.len() && forall|i: int|
                0 <= i < list.len() ==> #[trigger] list[i] == JsonV::List(
                    seq![JsonV::Str(fields[i].0), JsonV::Str(fields[i].1)],
                )
            &&& json::field_of(row, "uses"@) == Some(
                JsonV::Whole(table::tally_at(links.used, ty)),
            )
        }),
{
    broadcast use crate::table::lemma_lookup_push;

    reveal_strlit("id");
    reveal_strlit("name");
    reveal_strlit("k");
    reveal_strlit("pkg");
    reveal_strlit("file");
    reveal_strlit("lines");
    reveal_strlit("fields");
    reveal_strlit("uses");
    assert("id"@.len() == 2 && "k"@.len() == 1 && "pkg"@.len() == 3 && "lines"@.len() == 5);
    assert("name"@[0] == 'n' && "file"@[0] == 'f' && "uses"@[0] == 'u' && "fields"@.len() == 6);
    let first = seq![("id"@, JsonV::Str(ty))];
    assert(first.skip(1) =~= seq![]);
    assert(table::lookup(first, "id"@) == Some(JsonV::Str(ty)));
    assert(forall|other: Text|
        other != "id"@ ==> #[trigger] table::lookup(first, other) is None);
    let fields = table::items_at(links.fields, ty);
    assert forall|i: int| 0 <= i < fields.len() implies #[trigger] fields_json(
        fields,
    )->List_0[i] == JsonV::List(
        seq![JsonV::Str(fields[i].0), JsonV::Str(fields[i].1)],
    ) by {
        assert(seq![JsonV::Str(fields[i].0)].push(JsonV::Str(fields[i].1)) =~= seq![
            JsonV::Str(fields[i].0),
            JsonV::Str(fields[i].1),
        ]);
    }
}

/// A function's row shows its id, its name, its kind, where it is, its lines, what
/// it takes in the order of its parameters, what it returns and what it does.
#[verifier::rlimit(60)]
pub proof fn lemma_function_shown(
    s: StreamV,
    g: GraphV,
    eff: EffectsV,
    links: LinksV,
    k: Attribution,
    node: NodeV,
)
    ensures
        ({
            let row = function_row(s, g, eff, links, k, node);
            let params = table::items_at(links.params, node.id);
            let sorted = arranged(params, params.len());
            let does = table::items_at(eff.symbols, node.id);
            &&& json::field_of(row, "id"@) == Some(JsonV::Str(node.id))
            &&& table::lookup(node.attrs, "name"@) matches Some(JsonV::Str(name))
                ==> json::field_of(row, "name"@) == Some(JsonV::Str(name))
            &&& table::lookup(node.attrs, "lang:kind"@) matches Some(JsonV::Str(kind))
                ==> json::field_of(row, "k"@) == Some(JsonV::Str(kind))
            &&& package_of(s, g, node.id) matches Some(pkg) ==> json::field_of(row, "pkg"@)
                == Some(JsonV::Str(pkg))
            &&& path_of(s, g, node.id) matches Some(path) ==> json::field_of(row, "file"@)
                == Some(JsonV::Str(path))
            &&& json::field_of(row, "lines"@) == Some(JsonV::Whole(lines_said(node) as u64))
            &&& json::field_of(row, "p"@) matches Some(JsonV::List(list)) && list.len()
                == sorted.len() && forall|i: int|
                0 <= i < list.len() ==> (#[trigger] list[i] matches JsonV::List(part)
                    && part.len() == 3 && part[0] == JsonV::Str(sorted[i].name) && part[1]
                    == JsonV::Str(written_as(s, g, sorted[i].ty)))
            &&& table::lookup(links.returns, node.id) is None ==> json::field_of(row, "r"@)
                == Some(JsonV::Null)
            &&& table::lookup(links.returns, node.id) matches Some(ty) ==> (json::field_of(row, "r"@)
                matches Some(JsonV::List(part)) && part.len() == 2 && part[0] == JsonV::Str(
                written_as(s, g, ty),
            ))
        }),
{
    broadcast use crate::table::lemma_lookup_push;

    reveal_strlit("id");
    reveal_strlit("name");
    reveal_strlit("k");
    reveal_strlit("pkg");
    reveal_strlit("file");
    reveal_strlit("lines");
    reveal_strlit("p");
    reveal_strlit("r");
    reveal_strlit("eff");
    assert("id"@.len() == 2 && "k"@.len() == 1 && "pkg"@.len() == 3 && "lines"@.len() == 5);
    assert("k"@[0] == 'k' && "p"@[0] == 'p' && "r"@[0] == 'r' && "p"@.len() == 1);
    assert("name"@[0] == 'n' && "file"@[0] == 'f' && "pkg"@[0] == 'p' && "eff"@[0] == 'e');
    let first = seq![("id"@, JsonV::Str(node.id))];
    assert(first.skip(1) =~= seq![]);
    assert(table::lookup(first, "id"@) == Some(JsonV::Str(node.id)));
    assert(forall|other: Text|
        other != "id"@ ==> #[trigger] table::lookup(first, other) is None);
}

/// A function is worth a row where it has an effect, takes three things or more,
/// or returns a `Result` whose second part is a bare string.
pub proof fn lemma_notable(s: StreamV, g: GraphV, eff: EffectsV, links: LinksV, id: Text)
    ensures
        table::items_at(eff.symbols, id).len() > 0 ==> is_notable(s, g, eff, links, id),
        table::items_at(links.params, id).len() >= 3 ==> is_notable(s, g, eff, links, id),
        table::items_at(eff.symbols, id).len() == 0 && table::items_at(links.params, id).len() < 3
            && table::lookup(links.returns, id) is None ==> !is_notable(s, g, eff, links, id),
        table::lookup(links.returns, id) matches Some(ty) ==> {
            let args = table::items_at(links.args, ty);
            &&& base_name(s, g, ty) != "Result"@ && table::items_at(eff.symbols, id).len() == 0
                && table::items_at(links.params, id).len() < 3 ==> !is_notable(
                s,
                g,
                eff,
                links,
                id,
            )
            &&& base_name(s, g, ty) == "Result"@ && args.len() == 2 && args[1].position == 1
                && base_name(s, g, args[1].ty) == "String"@ ==> is_notable(s, g, eff, links, id)
        },
{
}

/// A dataset holds what it is given, and the rows and totals of its stream.
#[verifier::rlimit(60)]
pub proof fn lemma_totals_shown(s: StreamV, rows: RowsV, types: Seq<JsonV>)
    ensures
        ({
            let totals = totals_json(s, rows, types);
            &&& json::field_of(totals, "types"@) == Some(JsonV::Whole(types.len() as u64))
            &&& json::field_of(totals, "functions"@) == Some(
                JsonV::Whole(rows.all_functions as u64),
            )
            &&& json::field_of(totals, "notable"@) == Some(
                JsonV::Whole(rows.functions.len() as u64),
            )
            &&& json::field_of(totals, "nodes"@) == Some(JsonV::Whole(s.nodes.len() as u64))
            &&& json::field_of(totals, "edges"@) == Some(JsonV::Whole(s.edges.len() as u64))
            &&& json::field_of(totals, "lines"@) == Some(JsonV::Whole(rows.lines))
        }),
{
    broadcast use crate::table::lemma_lookup_push;

    reveal_strlit("types");
    reveal_strlit("functions");
    reveal_strlit("notable");
    reveal_strlit("nodes");
    reveal_strlit("edges");
    reveal_strlit("lines");
    assert("types"@[0] == 't' && "nodes"@[0] == 'n' && "edges"@[0] == 'e' && "lines"@[0] == 'l');
    assert("functions"@.len() == 9 && "notable"@.len() == 7 && "types"@.len() == 5);
    let first = seq![("types"@, JsonV::Whole(types.len() as u64))];
    assert(first.skip(1) =~= seq![]);
    assert(table::lookup(first, "types"@) == Some(JsonV::Whole(types.len() as u64)));
    assert(forall|other: Text|
        other != "types"@ ==> #[trigger] table::lookup(first, other) is None);
}


/// A package has as many effects of a kind as edges tell of what it holds.
pub proof fn lemma_package_effects(s: StreamV, g: GraphV, id: Text, kind: Text, n: nat)
    requires
        n <= s.edges.len(),
    ensures
        ({
            let mine = s.edges.take(n as int).filter(
                |e: EdgeV| effect_of(e.kind) == Some(kind) && holder(g, e.from, "pkg:"@) == Some(id),
            ).len();
            table::tally_at(table::items_at(effects_in(s, g, n).packages, id), kind) == if mine
                <= u64::MAX {
                mine
            } else {
                u64::MAX as nat
            }
        }),
    decreases n,
{
    reveal(Seq::filter);
    if n > 0 {
        lemma_package_effects(s, g, id, kind, (n - 1) as nat);
        let before = effects_in(s, g, (n - 1) as nat).packages;
        let e = s.edges[n - 1];
        assert(s.edges.take(n as int).drop_last() =~= s.edges.take(n - 1));
        assert(s.edges.take(n as int).last() == e);
        if let (Some(seen), Some(at)) = (effect_of(e.kind), holder(g, e.from, "pkg:"@)) {
            let held = table::items_at(before, at);
            table::lemma_put_lookup(before, at, table::with_one(held, seen), id);
            table::lemma_put_lookup(held, seen, table::more(table::tally_at(held, seen), 1), kind);
        }
    }
}

/// A file has as many effects of a kind as edges tell of what it holds.
pub proof fn lemma_file_effects(s: StreamV, g: GraphV, id: Text, kind: Text, n: nat)
    requires
        n <= s.edges.len(),
    ensures
        ({
            let mine = s.edges.take(n as int).filter(
                |e: EdgeV| effect_of(e.kind) == Some(kind) && holder(g, e.from, "file:"@) == Some(id),
            ).len();
            table::tally_at(table::items_at(effects_in(s, g, n).files, id), kind) == if mine
                <= u64::MAX {
                mine
            } else {
                u64::MAX as nat
            }
        }),
    decreases n,
{
    reveal(Seq::filter);
    if n > 0 {
        lemma_file_effects(s, g, id, kind, (n - 1) as nat);
        let before = effects_in(s, g, (n - 1) as nat).files;
        let e = s.edges[n - 1];
        assert(s.edges.take(n as int).drop_last() =~= s.edges.take(n - 1));
        assert(s.edges.take(n as int).last() == e);
        if let (Some(seen), Some(at)) = (effect_of(e.kind), holder(g, e.from, "file:"@)) {
            let held = table::items_at(before, at);
            table::lemma_put_lookup(before, at, table::with_one(held, seen), id);
            table::lemma_put_lookup(held, seen, table::more(table::tally_at(held, seen), 1), kind);
        }
    }
}

/// A symbol has the kinds of effect that its edges tell of, and no others.
pub proof fn lemma_symbol_effects(s: StreamV, g: GraphV, id: Text, kind: Text, n: nat)
    requires
        n <= s.edges.len(),
    ensures
        table::lookup(table::items_at(effects_in(s, g, n).symbols, id), kind) is Some <==> exists|
            i: int,
        |
            0 <= i < n && (#[trigger] s.edges[i]).from == id && effect_of(s.edges[i].kind) == Some(
                kind,
            ),
    decreases n,
{
    if n > 0 {
        lemma_symbol_effects(s, g, id, kind, (n - 1) as nat);
        let before = effects_in(s, g, (n - 1) as nat).symbols;
        let e = s.edges[n - 1];
        if let Some(seen) = effect_of(e.kind) {
            let held = table::items_at(before, e.from);
            table::lemma_put_lookup(before, e.from, table::put(held, seen, ()), id);
            table::lemma_put_lookup(held, seen, (), kind);
        }
        if table::lookup(table::items_at(before, id), kind) is Some {
            let i = choose|i: int|
                0 <= i < n - 1 && (#[trigger] s.edges[i]).from == id && effect_of(s.edges[i].kind)
                    == Some(kind);
            assert(s.edges[i].from == id);
        }
    }
}

/// An effect is told by the name of its edge's kind.
pub proof fn lemma_effect_names(kind: EdgeKind)
    ensures
        effect_of(kind) matches Some(name) ==> name == kind.spelled(),
        effect_of(kind) is Some <==> kind == EdgeKind::Spawns || kind == EdgeKind::ReadsEnv || kind
            == EdgeKind::EffectFs || kind == EdgeKind::EffectNet || kind == EdgeKind::EffectExec
            || kind == EdgeKind::UnsafeAt,
{
}

/// A package's programs are those that its edges say it contains, in their order.
pub proof fn lemma_programs_listed(s: StreamV, g: GraphV, id: Text, n: nat)
    requires
        n <= s.edges.len(),
    ensures
        table::items_at(links_in(s, g, n).bins, id) == s.edges.take(n as int).filter(
            |e: EdgeV|
                e.kind == EdgeKind::Contains && e.from == id && program(s, g, e.to) is Some,
        ).map_values(|e: EdgeV| program(s, g, e.to)->Some_0),
    decreases n,
{
    reveal(Seq::filter);
    let mine = |e: EdgeV|
        e.kind == EdgeKind::Contains && e.from == id && program(s, g, e.to) is Some;
    let item = |e: EdgeV| program(s, g, e.to)->Some_0;
    let all = s.edges.take(n as int);
    if n > 0 {
        lemma_programs_listed(s, g, id, (n - 1) as nat);
        let before = links_in(s, g, (n - 1) as nat);
        let e = s.edges[n - 1];
        let front = s.edges.take(n - 1);
        assert(all.drop_last() =~= front);
        assert(all.last() == e);
        if e.kind == EdgeKind::Contains && program(s, g, e.to) is Some {
            let held = table::items_at(before.bins, e.from);
            table::lemma_put_lookup(before.bins, e.from, held.push(item(e)), id);
            assert(links_in(s, g, n).bins == table::with_item(before.bins, e.from, item(e)));
        }
        if mine(e) {
            assert(front.filter(mine).push(e).map_values(item) =~= front.filter(mine).map_values(
                item,
            ).push(item(e)));
        }
    } else {
        assert(all.filter(mine).map_values(item) =~= seq![]);
    }
}

}
