//! The fact schema.
//!
//! An extractor emits a stream of [`Fact`]s as newline-delimited JSON. Nothing
//! here knows about any particular language: language-specific vocabulary
//! belongs in `attrs` under a `lang:` prefix, never in a node or edge kind.

use vstd::prelude::*;

use crate::json::{self, copy_fields, no_fields, same_fields, set_field, Json, JsonV};
use crate::text::{self, Text};

verus! {

/// The version of this library, as its reports give it.
pub const VERSION: &'static str = "0.1.0";

/// Bumped whenever a consumer could misread an older stream. Emitted once, as
/// the first line of every fact stream.
pub const SCHEMA_VERSION: &'static str = "0.1.0";

/// A stable, path-addressed identifier.
///
/// Never line-addressed: ids have to survive a refactor so that annotations
/// stay attached and two graphs can be diffed.
#[derive(Debug)]
pub struct Id(pub String);

impl DeepView for Id {
    type V = Text;

    open spec fn deep_view(&self) -> Text {
        self.0@
    }
}

impl Id {
    pub fn package(name: &str) -> (id: Id)
        ensures
            id.0@ == "pkg:"@ + name@,
    {
        Id(text::cat("pkg:", name))
    }

    pub fn directory(path: &str) -> (id: Id)
        ensures
            id.0@ == "dir:"@ + path@,
    {
        Id(text::cat("dir:", path))
    }

    pub fn file(path: &str) -> (id: Id)
        ensures
            id.0@ == "file:"@ + path@,
    {
        Id(text::cat("file:", path))
    }

    pub fn symbol(path: &str) -> (id: Id)
        ensures
            id.0@ == "sym:"@ + path@,
    {
        Id(text::cat("sym:", path))
    }

    /// An external process this code can start.
    pub fn process(name: &str) -> (id: Id)
        ensures
            id.0@ == "proc:"@ + name@,
    {
        Id(text::cat("proc:", name))
    }

    pub fn env_var(name: &str) -> (id: Id)
        ensures
            id.0@ == "env:"@ + name@,
    {
        Id(text::cat("env:", name))
    }

    /// A capability class (`fs`, `net`, `exec`).
    pub fn capability(name: &str) -> (id: Id)
        ensures
            id.0@ == "cap:"@ + name@,
    {
        Id(text::cat("cap:", name))
    }

    /// Something referenced but not owned by this scan — an upstream crate, an
    /// unresolved import.
    pub fn external(name: &str) -> (id: Id)
        ensures
            id.0@ == "ext:"@ + name@,
    {
        Id(text::cat("ext:", name))
    }

    /// A type as it is written.
    pub fn type_ref(name: &str) -> (id: Id)
        ensures
            id.0@ == "type:"@ + name@,
    {
        Id(text::cat("type:", name))
    }

    /// A program that a package builds.
    pub fn binary(name: &str) -> (id: Id)
        ensures
            id.0@ == "bin:"@ + name@,
    {
        Id(text::cat("bin:", name))
    }

    pub fn copy(&self) -> (id: Id)
        ensures
            id.0@ == self.0@,
    {
        Id(self.0.clone())
    }

    /// The identifier as it is written.
    pub fn to_text(&self) -> (s: String)
        ensures
            s@ == self.0@,
    {
        self.0.clone()
    }
}

#[derive(Debug, Clone, Copy, PartialEq, Eq, Structural)]
pub enum NodeKind {
    System,
    Binary,
    Package,
    Directory,
    File,
    Symbol,
    Type,
    Process,
    EnvVar,
    Capability,
    External,
}

#[derive(Debug, Clone, Copy, PartialEq, Eq, Structural)]
pub enum EdgeKind {
    /// The zoom spine. The only edge every extractor must emit.
    Contains,
    DependsOn,
    Imports,
    Calls,
    // --- what a declaration says ---
    Param,
    Returns,
    HasField,
    Defines,
    TypeArg,
    // --- what the code does about what it is told ---
    Silences,
    Discards,
    DefaultArm,
    Interpolates,
    SpawnArg,
    // --- effect edges: few, dangerous, and the default view ---
    Spawns,
    ReadsEnv,
    Crosses,
    EffectFs,
    EffectNet,
    EffectExec,
    UnsafeAt,
}

/// Where a fact came from.
///
/// `Runtime` is unused today. It exists so that observing a running program
/// later is not a schema migration.
#[derive(Debug, Clone, Copy, PartialEq, Eq, Structural)]
pub enum Source {
    Static,
    Runtime,
}

impl NodeKind {
    pub open spec fn spelled(self) -> Text {
        match self {
            NodeKind::System => "system"@,
            NodeKind::Binary => "binary"@,
            NodeKind::Package => "package"@,
            NodeKind::Directory => "directory"@,
            NodeKind::File => "file"@,
            NodeKind::Symbol => "symbol"@,
            NodeKind::Type => "type"@,
            NodeKind::Process => "process"@,
            NodeKind::EnvVar => "env_var"@,
            NodeKind::Capability => "capability"@,
            NodeKind::External => "external"@,
        }
    }

    /// The kind as the stream spells it.
    pub fn name(self) -> (s: &'static str)
        ensures
            s@ == self.spelled(),
    {
        match self {
            NodeKind::System => "system",
            NodeKind::Binary => "binary",
            NodeKind::Package => "package",
            NodeKind::Directory => "directory",
            NodeKind::File => "file",
            NodeKind::Symbol => "symbol",
            NodeKind::Type => "type",
            NodeKind::Process => "process",
            NodeKind::EnvVar => "env_var",
            NodeKind::Capability => "capability",
            NodeKind::External => "external",
        }
    }

    pub fn named(s: &str) -> (kind: Option<NodeKind>)
        ensures
            kind == node_kind_of(s@),
    {
        proof {
            lemma_node_kinds(s@);
        }
        if text::same(s, NodeKind::System.name()) {
            Some(NodeKind::System)
        } else if text::same(s, NodeKind::Binary.name()) {
            Some(NodeKind::Binary)
        } else if text::same(s, NodeKind::Package.name()) {
            Some(NodeKind::Package)
        } else if text::same(s, NodeKind::Directory.name()) {
            Some(NodeKind::Directory)
        } else if text::same(s, NodeKind::File.name()) {
            Some(NodeKind::File)
        } else if text::same(s, NodeKind::Symbol.name()) {
            Some(NodeKind::Symbol)
        } else if text::same(s, NodeKind::Type.name()) {
            Some(NodeKind::Type)
        } else if text::same(s, NodeKind::Process.name()) {
            Some(NodeKind::Process)
        } else if text::same(s, NodeKind::EnvVar.name()) {
            Some(NodeKind::EnvVar)
        } else if text::same(s, NodeKind::Capability.name()) {
            Some(NodeKind::Capability)
        } else if text::same(s, NodeKind::External.name()) {
            Some(NodeKind::External)
        } else {
            None
        }
    }
}

/// The kind that is spelled this way.
pub open spec fn node_kind_of(s: Text) -> Option<NodeKind> {
    if exists|kind: NodeKind| #[trigger] kind.spelled() == s {
        Some(choose|kind: NodeKind| #[trigger] kind.spelled() == s)
    } else {
        None
    }
}

/// No two kinds are spelled alike.
pub proof fn lemma_node_kinds(s: Text)
    ensures
        forall|a: NodeKind, b: NodeKind| #[trigger] a.spelled() == #[trigger] b.spelled() ==> a == b,
        forall|kind: NodeKind| #[trigger] kind.spelled() == s ==> node_kind_of(s) == Some(kind),
{
    reveal_strlit("system");
    reveal_strlit("binary");
    reveal_strlit("package");
    reveal_strlit("directory");
    reveal_strlit("file");
    reveal_strlit("symbol");
    reveal_strlit("type");
    reveal_strlit("process");
    reveal_strlit("env_var");
    reveal_strlit("capability");
    reveal_strlit("external");
    assert forall|a: NodeKind, b: NodeKind| #[trigger] a.spelled() == #[trigger] b.spelled() implies a
        == b by {
        assert(a.spelled().len() == b.spelled().len());
        assert(a.spelled()[0] == b.spelled()[0]);
        assert(a.spelled()[1] == b.spelled()[1]);
        assert(a.spelled()[2] == b.spelled()[2]);
    }
}

impl EdgeKind {
    pub open spec fn spelled(self) -> Text {
        match self {
            EdgeKind::Contains => "contains"@,
            EdgeKind::DependsOn => "depends_on"@,
            EdgeKind::Imports => "imports"@,
            EdgeKind::Calls => "calls"@,
            EdgeKind::Param => "param"@,
            EdgeKind::Returns => "returns"@,
            EdgeKind::HasField => "has_field"@,
            EdgeKind::Defines => "defines"@,
            EdgeKind::TypeArg => "type_arg"@,
            EdgeKind::Silences => "silences"@,
            EdgeKind::Discards => "discards"@,
            EdgeKind::DefaultArm => "default_arm"@,
            EdgeKind::Interpolates => "interpolates"@,
            EdgeKind::SpawnArg => "spawn_arg"@,
            EdgeKind::Spawns => "spawns"@,
            EdgeKind::ReadsEnv => "reads_env"@,
            EdgeKind::Crosses => "crosses"@,
            EdgeKind::EffectFs => "effect_fs"@,
            EdgeKind::EffectNet => "effect_net"@,
            EdgeKind::EffectExec => "effect_exec"@,
            EdgeKind::UnsafeAt => "unsafe_at"@,
        }
    }

    /// The kind as the stream spells it.
    pub fn name(self) -> (s: &'static str)
        ensures
            s@ == self.spelled(),
    {
        match self {
            EdgeKind::Contains => "contains",
            EdgeKind::DependsOn => "depends_on",
            EdgeKind::Imports => "imports",
            EdgeKind::Calls => "calls",
            EdgeKind::Param => "param",
            EdgeKind::Returns => "returns",
            EdgeKind::HasField => "has_field",
            EdgeKind::Defines => "defines",
            EdgeKind::TypeArg => "type_arg",
            EdgeKind::Silences => "silences",
            EdgeKind::Discards => "discards",
            EdgeKind::DefaultArm => "default_arm",
            EdgeKind::Interpolates => "interpolates",
            EdgeKind::SpawnArg => "spawn_arg",
            EdgeKind::Spawns => "spawns",
            EdgeKind::ReadsEnv => "reads_env",
            EdgeKind::Crosses => "crosses",
            EdgeKind::EffectFs => "effect_fs",
            EdgeKind::EffectNet => "effect_net",
            EdgeKind::EffectExec => "effect_exec",
            EdgeKind::UnsafeAt => "unsafe_at",
        }
    }

    pub fn named(s: &str) -> (kind: Option<EdgeKind>)
        ensures
            kind == edge_kind_of(s@),
    {
        proof {
            lemma_edge_kinds(s@);
        }
        if text::same(s, EdgeKind::Contains.name()) {
            Some(EdgeKind::Contains)
        } else if text::same(s, EdgeKind::DependsOn.name()) {
            Some(EdgeKind::DependsOn)
        } else if text::same(s, EdgeKind::Imports.name()) {
            Some(EdgeKind::Imports)
        } else if text::same(s, EdgeKind::Calls.name()) {
            Some(EdgeKind::Calls)
        } else if text::same(s, EdgeKind::Param.name()) {
            Some(EdgeKind::Param)
        } else if text::same(s, EdgeKind::Returns.name()) {
            Some(EdgeKind::Returns)
        } else if text::same(s, EdgeKind::HasField.name()) {
            Some(EdgeKind::HasField)
        } else if text::same(s, EdgeKind::Defines.name()) {
            Some(EdgeKind::Defines)
        } else if text::same(s, EdgeKind::TypeArg.name()) {
            Some(EdgeKind::TypeArg)
        } else if text::same(s, EdgeKind::Silences.name()) {
            Some(EdgeKind::Silences)
        } else if text::same(s, EdgeKind::Discards.name()) {
            Some(EdgeKind::Discards)
        } else if text::same(s, EdgeKind::DefaultArm.name()) {
            Some(EdgeKind::DefaultArm)
        } else if text::same(s, EdgeKind::Interpolates.name()) {
            Some(EdgeKind::Interpolates)
        } else if text::same(s, EdgeKind::SpawnArg.name()) {
            Some(EdgeKind::SpawnArg)
        } else if text::same(s, EdgeKind::Spawns.name()) {
            Some(EdgeKind::Spawns)
        } else if text::same(s, EdgeKind::ReadsEnv.name()) {
            Some(EdgeKind::ReadsEnv)
        } else if text::same(s, EdgeKind::Crosses.name()) {
            Some(EdgeKind::Crosses)
        } else if text::same(s, EdgeKind::EffectFs.name()) {
            Some(EdgeKind::EffectFs)
        } else if text::same(s, EdgeKind::EffectNet.name()) {
            Some(EdgeKind::EffectNet)
        } else if text::same(s, EdgeKind::EffectExec.name()) {
            Some(EdgeKind::EffectExec)
        } else if text::same(s, EdgeKind::UnsafeAt.name()) {
            Some(EdgeKind::UnsafeAt)
        } else {
            None
        }
    }
}

/// The kind that is spelled this way.
pub open spec fn edge_kind_of(s: Text) -> Option<EdgeKind> {
    if exists|kind: EdgeKind| #[trigger] kind.spelled() == s {
        Some(choose|kind: EdgeKind| #[trigger] kind.spelled() == s)
    } else {
        None
    }
}

/// No two kinds are spelled alike.
pub proof fn lemma_edge_kinds(s: Text)
    ensures
        forall|a: EdgeKind, b: EdgeKind| #[trigger] a.spelled() == #[trigger] b.spelled() ==> a == b,
        forall|kind: EdgeKind| #[trigger] kind.spelled() == s ==> edge_kind_of(s) == Some(kind),
{
    reveal_strlit("contains");
    reveal_strlit("depends_on");
    reveal_strlit("imports");
    reveal_strlit("calls");
    reveal_strlit("param");
    reveal_strlit("returns");
    reveal_strlit("has_field");
    reveal_strlit("defines");
    reveal_strlit("type_arg");
    reveal_strlit("silences");
    reveal_strlit("discards");
    reveal_strlit("default_arm");
    reveal_strlit("interpolates");
    reveal_strlit("spawn_arg");
    reveal_strlit("spawns");
    reveal_strlit("reads_env");
    reveal_strlit("crosses");
    reveal_strlit("effect_fs");
    reveal_strlit("effect_net");
    reveal_strlit("effect_exec");
    reveal_strlit("unsafe_at");
    assert forall|a: EdgeKind, b: EdgeKind| #[trigger] a.spelled() == #[trigger] b.spelled() implies a
        == b by {
        assert(a.spelled().len() == b.spelled().len());
        assert(a.spelled()[0] == b.spelled()[0]);
        assert(a.spelled()[1] == b.spelled()[1]);
    }
}

/// Where a fact can be seen in the source. An edge without evidence does not
/// exist — that rule is what separates a map from a diagram.
#[derive(Debug)]
pub struct Evidence {
    pub file: String,
    /// Inclusive `[start, end]`, 1-indexed.
    pub line: [u32; 2],
    /// `[start, end)` on those lines, 0-indexed, when the extractor knows.
    pub col: Option<[u32; 2]>,
    pub extractor: String,
    pub source: Source,
}

pub struct EvidenceV {
    pub file: Text,
    pub line: (u32, u32),
    pub col: Option<(u32, u32)>,
    pub extractor: Text,
    pub source: Source,
}

impl DeepView for Evidence {
    type V = EvidenceV;

    open spec fn deep_view(&self) -> EvidenceV {
        EvidenceV {
            file: self.file@,
            line: (self.line[0], self.line[1]),
            col: match self.col {
                Some(c) => Some((c[0], c[1])),
                None => None,
            },
            extractor: self.extractor@,
            source: self.source,
        }
    }
}

/// Whether evidence has a file and lines: counted from one, the last not before
/// the first.
pub open spec fn is_shown(ev: EvidenceV) -> bool {
    ev.file.len() > 0 && 1 <= ev.line.0 <= ev.line.1
}

/// A path as evidence names it. What has none stands for the root.
pub open spec fn path_shown(path: Text) -> Text {
    if path.len() == 0 {
        "."@
    } else {
        path
    }
}

pub(crate) broadcast proof fn lemma_path_shown(path: Text)
    ensures
        (#[trigger] path_shown(path)).len() > 0,
{
    reveal_strlit(".");
}

pub(crate) fn show_path(path: &str) -> (out: String)
    ensures
        out@ == path_shown(path@),
{
    if text::is_empty(path) {
        ".".to_owned()
    } else {
        path.to_owned()
    }
}

pub open spec fn seen_at(file: Text, line: (u32, u32), col: Option<(u32, u32)>) -> EvidenceV {
    EvidenceV { file, line, col, extractor: "rust"@, source: Source::Static }
}

impl Evidence {
    pub fn at(file: &str, start: u32, end: u32) -> (ev: Evidence)
        ensures
            ev.deep_view() == seen_at(file@, (start, end), None),
    {
        Evidence {
            file: file.to_owned(),
            line: [start, end],
            col: None,
            extractor: "rust".to_owned(),
            source: Source::Static,
        }
    }

    /// The same, with the columns the span covers.
    pub fn spanning(file: &str, line: [u32; 2], col: [u32; 2]) -> (ev: Evidence)
        ensures
            ev.deep_view() == seen_at(file@, (line[0], line[1]), Some((col[0], col[1]))),
    {
        Evidence {
            file: file.to_owned(),
            line,
            col: Some(col),
            extractor: "rust".to_owned(),
            source: Source::Static,
        }
    }

    pub fn copy(&self) -> (ev: Evidence)
        ensures
            ev.deep_view() == self.deep_view(),
    {
        Evidence {
            file: self.file.clone(),
            line: self.line,
            col: self.col,
            extractor: self.extractor.clone(),
            source: self.source,
        }
    }

    pub fn same(&self, other: &Evidence) -> (r: bool)
        ensures
            r == (self.deep_view() == other.deep_view()),
    {
        let columns = match (self.col, other.col) {
            (None, None) => true,
            (Some(a), Some(b)) => a[0] == b[0] && a[1] == b[1],
            _ => false,
        };
        columns && self.file == other.file && self.line[0] == other.line[0] && self.line[1]
            == other.line[1] && self.extractor == other.extractor && self.source == other.source
    }
}

#[derive(Debug)]
pub struct Node {
    pub id: Id,
    pub kind: NodeKind,
    pub attrs: Vec<(String, Json)>,
}

pub struct NodeV {
    pub id: Text,
    pub kind: NodeKind,
    pub attrs: Seq<(Text, JsonV)>,
}

impl DeepView for Node {
    type V = NodeV;

    open spec fn deep_view(&self) -> NodeV {
        NodeV { id: self.id.0@, kind: self.kind, attrs: self.attrs.deep_view() }
    }
}

impl NodeV {
    pub open spec fn new(id: Text, kind: NodeKind) -> NodeV {
        NodeV { id, kind, attrs: seq![] }
    }

    pub open spec fn attr(self, key: Text, value: JsonV) -> NodeV {
        NodeV { attrs: json::with_field(self.attrs, key, value), ..self }
    }
}

impl Node {
    pub fn new(id: Id, kind: NodeKind) -> (node: Node)
        ensures
            node.deep_view() == NodeV::new(id.0@, kind),
    {
        Node { id, kind, attrs: no_fields() }
    }

    pub fn attr(self, key: &str, value: Json) -> (node: Node)
        ensures
            node.deep_view() == self.deep_view().attr(key@, value.deep_view()),
    {
        let mut attrs = self.attrs;
        set_field(&mut attrs, key, value);
        Node { id: self.id, kind: self.kind, attrs }
    }

    pub fn copy(&self) -> (node: Node)
        ensures
            node.deep_view() == self.deep_view(),
    {
        Node { id: self.id.copy(), kind: self.kind, attrs: copy_fields(&self.attrs) }
    }
}

#[derive(Debug)]
pub struct Edge {
    pub kind: EdgeKind,
    pub from: Id,
    pub to: Id,
    pub ev: Vec<Evidence>,
    pub attrs: Vec<(String, Json)>,
}

pub struct EdgeV {
    pub kind: EdgeKind,
    pub from: Text,
    pub to: Text,
    pub ev: Seq<EvidenceV>,
    pub attrs: Seq<(Text, JsonV)>,
}

impl DeepView for Edge {
    type V = EdgeV;

    open spec fn deep_view(&self) -> EdgeV {
        EdgeV {
            kind: self.kind,
            from: self.from.0@,
            to: self.to.0@,
            ev: self.ev.deep_view(),
            attrs: self.attrs.deep_view(),
        }
    }
}

impl EdgeV {
    pub open spec fn new(kind: EdgeKind, from: Text, to: Text) -> EdgeV {
        EdgeV { kind, from, to, ev: seq![], attrs: seq![] }
    }

    pub open spec fn attr(self, key: Text, value: JsonV) -> EdgeV {
        EdgeV { attrs: json::with_field(self.attrs, key, value), ..self }
    }

    pub open spec fn evidence(self, ev: EvidenceV) -> EdgeV {
        EdgeV { ev: self.ev.push(ev), ..self }
    }

    pub open spec fn inferred(self, via: Text) -> EdgeV {
        self.attr("confidence"@, JsonV::Str("inferred"@)).attr("via"@, JsonV::Str(via))
    }

    /// Marked as belonging to test code, where it does.
    pub open spec fn in_test(self, test: bool) -> EdgeV {
        if test {
            self.attr("role"@, JsonV::Str("test"@))
        } else {
            self
        }
    }
}

impl Edge {
    pub fn copy(&self) -> (edge: Edge)
        ensures
            edge.deep_view() == self.deep_view(),
    {
        let mut ev: Vec<Evidence> = Vec::new();
        let mut i: usize = 0;
        while i < self.ev.len()
            invariant
                i <= self.ev.len(),
                ev.deep_view() == self.ev.deep_view().take(i as int),
            decreases self.ev.len() - i,
        {
            text::push(&mut ev, self.ev[i].copy());
            assert(ev.deep_view() =~= self.ev.deep_view().take(i + 1));
            i += 1;
        }
        assert(ev.deep_view() =~= self.ev.deep_view());
        Edge {
            kind: self.kind,
            from: self.from.copy(),
            to: self.to.copy(),
            ev,
            attrs: copy_fields(&self.attrs),
        }
    }

    pub fn same(&self, other: &Edge) -> (r: bool)
        ensures
            r == (self.deep_view() == other.deep_view()),
    {
        if self.kind != other.kind || self.from.0 != other.from.0 || self.to.0 != other.to.0
            || self.ev.len() != other.ev.len() {
            assert(self.deep_view().ev.len() == self.ev@.len());
            assert(other.deep_view().ev.len() == other.ev@.len());
            return false;
        }
        let mut i: usize = 0;
        while i < self.ev.len()
            invariant
                i <= self.ev.len(),
                self.ev.len() == other.ev.len(),
                forall|k: int|
                    0 <= k < i ==> #[trigger] self.ev.deep_view()[k] == other.ev.deep_view()[k],
            decreases self.ev.len() - i,
        {
            if !self.ev[i].same(&other.ev[i]) {
                assert(self.deep_view().ev[i as int] != other.deep_view().ev[i as int]);
                return false;
            }
            i += 1;
        }
        assert(self.ev.deep_view() =~= other.ev.deep_view());
        same_fields(&self.attrs, &other.attrs)
    }

    pub fn new(kind: EdgeKind, from: Id, to: Id) -> (edge: Edge)
        ensures
            edge.deep_view() == EdgeV::new(kind, from.0@, to.0@),
    {
        let ev: Vec<Evidence> = Vec::new();
        assert(ev.deep_view() =~= Seq::<EvidenceV>::empty());
        Edge { kind, from, to, ev, attrs: no_fields() }
    }

    pub fn evidence(self, ev: Evidence) -> (edge: Edge)
        ensures
            edge.deep_view() == self.deep_view().evidence(ev.deep_view()),
    {
        let mut all = self.ev;
        text::push(&mut all, ev);
        Edge { kind: self.kind, from: self.from, to: self.to, ev: all, attrs: self.attrs }
    }

    pub fn attr(self, key: &str, value: Json) -> (edge: Edge)
        ensures
            edge.deep_view() == self.deep_view().attr(key@, value.deep_view()),
    {
        let mut attrs = self.attrs;
        set_field(&mut attrs, key, value);
        Edge { kind: self.kind, from: self.from, to: self.to, ev: self.ev, attrs }
    }

    /// Marks an edge that took a step beyond the source as written, and how.
    pub fn inferred(self, via: &str) -> (edge: Edge)
        ensures
            edge.deep_view() == self.deep_view().inferred(via@),
    {
        self.attr("confidence", Json::str("inferred")).attr("via", Json::str(via))
    }

    pub fn in_test(self, test: bool) -> (edge: Edge)
        ensures
            edge.deep_view() == self.deep_view().in_test(test),
    {
        if test {
            self.attr("role", Json::str("test"))
        } else {
            self
        }
    }
}

#[derive(Debug)]
pub enum Fact {
    /// First line of every stream.
    Header { schema: String, extractor: String, root: String },
    Node(Node),
    Edge(Edge),
}

pub enum FactV {
    Header { schema: Text, extractor: Text, root: Text },
    Node(NodeV),
    Edge(EdgeV),
}

impl DeepView for Fact {
    type V = FactV;

    open spec fn deep_view(&self) -> FactV {
        match self {
            Fact::Header { schema, extractor, root } => FactV::Header {
                schema: schema@,
                extractor: extractor@,
                root: root@,
            },
            Fact::Node(node) => FactV::Node(node.deep_view()),
            Fact::Edge(edge) => FactV::Edge(edge.deep_view()),
        }
    }
}

impl FactV {
    pub open spec fn header(extractor: Text, root: Text) -> FactV {
        FactV::Header { schema: SCHEMA_VERSION@, extractor, root }
    }
}

impl Fact {
    pub fn header(extractor: &str, root: &str) -> (fact: Fact)
        ensures
            fact.deep_view() == FactV::header(extractor@, root@),
    {
        Fact::Header {
            schema: SCHEMA_VERSION.to_owned(),
            extractor: extractor.to_owned(),
            root: root.to_owned(),
        }
    }
}

}
