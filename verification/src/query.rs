//! Facts as a graph, and the questions that are asked of it.
//!
//! Node kinds become labels and edge kinds become relationship types, because
//! neither can be a parameter of a query. What a graph engine is told and what
//! is made of its rows stands here; the engine is the caller's.

use vstd::prelude::*;

use crate::facts::{Stream, StreamV};
use crate::json::{self, Json, JsonV};
use crate::measure::{self, Real, RealV};
use crate::metrics;
use crate::schema::{Edge, EdgeV, Node, NodeKind, NodeV};
use crate::table::{self, Names, Table};
use crate::text::{self, Text};

verus! {

/// A value as a graph engine holds it.
#[derive(Debug)]
pub enum Datum {
    Str(String),
    Int(i64),
    Float(Real),
    Bool(bool),
    Null,
    List(Vec<Datum>),
    Fields(Vec<(String, Datum)>),
}

/// What a [`Datum`] holds.
pub enum DatumV {
    Str(Text),
    Int(i64),
    Float(RealV),
    Bool(bool),
    Null,
    List(Seq<DatumV>),
    Fields(Seq<(Text, DatumV)>),
}

impl Datum {
    pub open spec fn held(self) -> DatumV
        decreases self,
    {
        match self {
            Datum::Str(s) => DatumV::Str(s@),
            Datum::Int(n) => DatumV::Int(n),
            Datum::Float(r) => DatumV::Float(r.deep_view()),
            Datum::Bool(b) => DatumV::Bool(b),
            Datum::Null => DatumV::Null,
            Datum::List(items) => DatumV::List(
                Seq::new(
                    items@.len(),
                    |i: int|
                        if 0 <= i < items@.len() {
                            items@[i].held()
                        } else {
                            DatumV::Null
                        },
                ),
            ),
            Datum::Fields(fields) => DatumV::Fields(
                Seq::new(
                    fields@.len(),
                    |i: int|
                        if 0 <= i < fields@.len() {
                            (fields@[i].0@, fields@[i].1.held())
                        } else {
                            (seq![], DatumV::Null)
                        },
                ),
            ),
        }
    }
}

impl DeepView for Datum {
    type V = DatumV;

    open spec fn deep_view(&self) -> DatumV {
        self.held()
    }
}

/// What a query gives back for one match, by column.
pub type Row = Table<Datum>;

// --- loading -----------------------------------------------------------------

/// The value that stands for an attribute. What an engine has no value for is
/// kept as its text.
pub open spec fn value_of(j: JsonV) -> DatumV {
    match j {
        JsonV::Str(s) => DatumV::Str(s),
        JsonV::Bool(b) => DatumV::Bool(b),
        JsonV::Whole(n) => if n <= i64::MAX {
            DatumV::Int(n as i64)
        } else {
            DatumV::Float(real_or_zero(j))
        },
        JsonV::Minus(n) => DatumV::Int(n),
        JsonV::Part(_) => DatumV::Float(real_or_zero(j)),
        _ => DatumV::Str(json::json_written(json::json_stored(j))),
    }
}

pub open spec fn real_or_zero(j: JsonV) -> RealV {
    match json::real_of(j) {
        Some(r) => r,
        None => RealV { bits: 0, text: "0"@ },
    }
}

fn read_real(j: &Json) -> (r: Real)
    ensures
        r.deep_view() == real_or_zero(j.deep_view()),
{
    match j.as_real() {
        Some(r) => r,
        None => Real { bits: 0, text: "0".to_owned() },
    }
}

fn json_to_value(j: &Json) -> (v: Datum)
    ensures
        v.deep_view() == value_of(j.deep_view()),
{
    match j {
        Json::Str(s) => Datum::Str(s.clone()),
        Json::Bool(b) => Datum::Bool(*b),
        Json::Whole(n) => {
            if *n <= i64::MAX as u64 {
                Datum::Int(*n as i64)
            } else {
                Datum::Float(read_real(j))
            }
        },
        Json::Minus(n) => Datum::Int(*n),
        Json::Part(_) => Datum::Float(read_real(j)),
        _ => Datum::Str(j.write()),
    }
}

/// Something an engine is told, its parameters, and what it is about.
pub struct Statement {
    pub query: String,
    pub params: Table<Datum>,
    pub about: String,
}

pub struct StatementV {
    pub query: Text,
    pub params: Seq<(Text, DatumV)>,
    pub about: Text,
}

impl DeepView for Statement {
    type V = StatementV;

    open spec fn deep_view(&self) -> StatementV {
        StatementV {
            query: self.query@,
            params: self.params.deep_view(),
            about: self.about@,
        }
    }
}

/// The label of a kind of node.
pub open spec fn label_of(kind: NodeKind) -> Text {
    match kind {
        NodeKind::System => "System"@,
        NodeKind::Binary => "Binary"@,
        NodeKind::Package => "Package"@,
        NodeKind::Directory => "Directory"@,
        NodeKind::File => "File"@,
        NodeKind::Symbol => "Symbol"@,
        NodeKind::Type => "Type"@,
        NodeKind::Process => "Process"@,
        NodeKind::EnvVar => "EnvVar"@,
        NodeKind::Capability => "Capability"@,
        NodeKind::External => "External"@,
    }
}

fn label(kind: NodeKind) -> (s: &'static str)
    ensures
        s@ == label_of(kind),
{
    match kind {
        NodeKind::System => "System",
        NodeKind::Binary => "Binary",
        NodeKind::Package => "Package",
        NodeKind::Directory => "Directory",
        NodeKind::File => "File",
        NodeKind::Symbol => "Symbol",
        NodeKind::Type => "Type",
        NodeKind::Process => "Process",
        NodeKind::EnvVar => "EnvVar",
        NodeKind::Capability => "Capability",
        NodeKind::External => "External",
    }
}

/// The parameters with what an attribute says, or an empty text where there is
/// no such attribute.
pub open spec fn with_attr(
    params: Seq<(Text, DatumV)>,
    attrs: Seq<(Text, JsonV)>,
    key: Text,
    name: Text,
) -> Seq<(Text, DatumV)> {
    table::put(
        params,
        name,
        match table::lookup(attrs, key) {
            Some(v) => value_of(v),
            None => DatumV::Str(seq![]),
        },
    )
}

fn add_attr(params: &mut Table<Datum>, attrs: &Vec<(String, Json)>, key: &str, name: &str)
    ensures
        final(params).deep_view() == with_attr(
            old(params).deep_view(),
            attrs.deep_view(),
            key@,
            name@,
        ),
{
    let value = match json::field(attrs, key) {
        Some(v) => json_to_value(v),
        None => Datum::Str(text::empty()),
    };
    let _ = params.insert(name.to_owned(), value);
}

/// The crate an id belongs to, so that a query can group by it.
pub open spec fn crate_of(id: Text) -> Text {
    match metrics::package_in(id) {
        Some(name) => name,
        None => seq![],
    }
}

pub open spec fn node_params(node: NodeV) -> Seq<(Text, DatumV)> {
    let params = table::put(seq![], "id"@, DatumV::Str(node.id));
    let params = table::put(params, "pkg"@, DatumV::Str(crate_of(node.id)));
    let params = with_attr(params, node.attrs, "name"@, "name"@);
    let params = with_attr(params, node.attrs, "lang:kind"@, "lang_kind"@);
    let params = with_attr(params, node.attrs, "path"@, "path"@);
    let params = with_attr(params, node.attrs, "text"@, "text"@);
    let params = with_attr(params, node.attrs, "lint"@, "lint"@);
    let params = with_attr(params, node.attrs, "body"@, "body"@);
    table::put(
        params,
        "lines"@,
        match table::lookup(node.attrs, "lines"@) {
            Some(v) => value_of(v),
            None => DatumV::Int(0),
        },
    )
}

pub open spec fn node_statement(node: NodeV) -> StatementV {
    StatementV {
        query: "CREATE (n:"@ + label_of(node.kind)
            + " {id: $id, name: $name, pkg: $pkg, kind: $lang_kind, path: $path, text: $text, lines: $lines})"@,
        params: node_params(node),
        about: "node "@ + node.id,
    }
}

fn tell_node(node: &Node) -> (s: Statement)
    ensures
        s.deep_view() == node_statement(node.deep_view()),
{
    let id = node.id.0.as_str();
    let mut params: Table<Datum> = Table::new();
    let _ = params.insert("id".to_owned(), Datum::Str(id.to_owned()));
    let package = match metrics::package_of(id) {
        Some(name) => name,
        None => text::empty(),
    };
    let _ = params.insert("pkg".to_owned(), Datum::Str(package));
    add_attr(&mut params, &node.attrs, "name", "name");
    add_attr(&mut params, &node.attrs, "lang:kind", "lang_kind");
    add_attr(&mut params, &node.attrs, "path", "path");
    add_attr(&mut params, &node.attrs, "text", "text");
    add_attr(&mut params, &node.attrs, "lint", "lint");
    add_attr(&mut params, &node.attrs, "body", "body");
    let lines = match json::field(&node.attrs, "lines") {
        Some(v) => json_to_value(v),
        None => Datum::Int(0),
    };
    let _ = params.insert("lines".to_owned(), lines);
    Statement {
        query: text::cat3(
            "CREATE (n:",
            label(node.kind),
            " {id: $id, name: $name, pkg: $pkg, kind: $lang_kind, path: $path, text: $text, lines: $lines})",
        ),
        params,
        about: text::cat("node ", id),
    }
}

pub open spec fn edge_params(e: EdgeV) -> Seq<(Text, DatumV)> {
    let params = table::put(seq![], "from"@, DatumV::Str(e.from));
    let params = table::put(params, "to"@, DatumV::Str(e.to));
    let params = with_attr(params, e.attrs, "via"@, "via"@);
    let params = with_attr(params, e.attrs, "lint"@, "lint"@);
    let params = with_attr(params, e.attrs, "breadth"@, "breadth"@);
    let params = with_attr(params, e.attrs, "scope"@, "scope"@);
    let params = with_attr(params, e.attrs, "role"@, "role"@);
    let params = with_attr(params, e.attrs, "op"@, "op"@);
    let params = with_attr(params, e.attrs, "form"@, "form"@);
    let params = with_attr(params, e.attrs, "name"@, "name"@);
    let params = table::put(
        params,
        "file"@,
        DatumV::Str(
            if e.ev.len() > 0 {
                e.ev[0].file
            } else {
                seq![]
            },
        ),
    );
    table::put(
        params,
        "line"@,
        DatumV::Int(
            if e.ev.len() > 0 {
                e.ev[0].line.0 as i64
            } else {
                0
            },
        ),
    )
}

pub open spec fn edge_statement(e: EdgeV) -> StatementV {
    let kind = e.kind.spelled();
    StatementV {
        query: "MATCH (a {id: $from}), (b {id: $to}) CREATE (a)-[:"@ + kind
            + " {via: $via, lint: $lint, breadth: $breadth, role: $role, file: $file, line: $line}]->(b)"@,
        params: edge_params(e),
        about: "edge "@ + kind + " "@ + e.from + " -> "@ + e.to,
    }
}

fn tell_edge(e: &Edge) -> (s: Statement)
    ensures
        s.deep_view() == edge_statement(e.deep_view()),
{
    let (from, to) = (e.from.0.as_str(), e.to.0.as_str());
    let kind = e.kind.name();
    let mut params: Table<Datum> = Table::new();
    let _ = params.insert("from".to_owned(), Datum::Str(from.to_owned()));
    let _ = params.insert("to".to_owned(), Datum::Str(to.to_owned()));
    add_attr(&mut params, &e.attrs, "via", "via");
    add_attr(&mut params, &e.attrs, "lint", "lint");
    add_attr(&mut params, &e.attrs, "breadth", "breadth");
    add_attr(&mut params, &e.attrs, "scope", "scope");
    add_attr(&mut params, &e.attrs, "role", "role");
    add_attr(&mut params, &e.attrs, "op", "op");
    add_attr(&mut params, &e.attrs, "form", "form");
    add_attr(&mut params, &e.attrs, "name", "name");
    let (file, line): (String, i64) = if e.ev.len() > 0 {
        assert(e.deep_view().ev[0] == e.ev@[0].deep_view());
        (e.ev[0].file.clone(), e.ev[0].line[0] as i64)
    } else {
        (text::empty(), 0)
    };
    let _ = params.insert("file".to_owned(), Datum::Str(file));
    let _ = params.insert("line".to_owned(), Datum::Int(line));
    let mut about = text::cat5("edge ", kind, " ", from, " -> ");
    text::extend(&mut about, to);
    Statement {
        query: text::cat3(
            "MATCH (a {id: $from}), (b {id: $to}) CREATE (a)-[:",
            kind,
            " {via: $via, lint: $lint, breadth: $breadth, role: $role, file: $file, line: $line}]->(b)",
        ),
        params,
        about,
    }
}

/// The ids of the first `n` nodes.
pub open spec fn ids(nodes: Seq<NodeV>, n: nat) -> Seq<(Text, ())>
    decreases n,
{
    if n == 0 {
        seq![]
    } else {
        table::put(ids(nodes, (n - 1) as nat), nodes[n - 1].id, ())
    }
}

/// An edge between nodes that the stream declares.
pub open spec fn is_anchored(e: EdgeV, known: Seq<(Text, ())>) -> bool {
    table::lookup(known, e.from) is Some && table::lookup(known, e.to) is Some
}

/// What an engine is told of the first `n` edges, and how many of them hang in
/// the air. An engine would drop those without a word.
pub open spec fn edge_statements(edges: Seq<EdgeV>, known: Seq<(Text, ())>, n: nat) -> (
    Seq<StatementV>,
    nat,
)
    decreases n,
{
    if n == 0 {
        (seq![], 0)
    } else {
        let (before, dangling) = edge_statements(edges, known, (n - 1) as nat);
        if is_anchored(edges[n - 1], known) {
            (before.push(edge_statement(edges[n - 1])), dangling)
        } else {
            (before, dangling + 1)
        }
    }
}

/// What an engine has to be told to hold a stream.
pub struct Loading {
    pub nodes: Vec<Statement>,
    pub edges: Vec<Statement>,
    pub dangling: usize,
}

/// Works out what an engine has to be told: one statement for each node, and
/// one for each edge between nodes that are declared.
pub fn load(stream: &Stream) -> (out: Loading)
    ensures
        out.nodes.deep_view() == Seq::new(
            stream.nodes@.len(),
            |i: int| node_statement(stream.deep_view().nodes[i]),
        ),
        (out.edges.deep_view(), out.dangling as nat) == edge_statements(
            stream.deep_view().edges,
            ids(stream.deep_view().nodes, stream.nodes@.len()),
            stream.edges@.len(),
        ),
{
    let nodes = &stream.nodes;
    let edges = &stream.edges;
    let mut known: Names = Table::new();
    let mut told: Vec<Statement> = Vec::new();
    let mut i: usize = 0;
    while i < nodes.len()
        invariant
            i <= nodes.len(),
            known.deep_view() == ids(nodes.deep_view(), i as nat),
            told.deep_view() == Seq::new(i as nat, |k: int| node_statement(nodes.deep_view()[k])),
        decreases nodes.len() - i,
    {
        assert(nodes.deep_view()[i as int] == nodes@[i as int].deep_view());
        let _ = known.insert(nodes[i].id.0.clone(), ());
        text::push(&mut told, tell_node(&nodes[i]));
        assert(told.deep_view() =~= Seq::new(
            (i + 1) as nat,
            |k: int| node_statement(nodes.deep_view()[k]),
        ));
        i += 1;
    }
    let mut linked: Vec<Statement> = Vec::new();
    assert(linked.deep_view() =~= seq![]);
    let mut dangling: usize = 0;
    let mut j: usize = 0;
    while j < edges.len()
        invariant
            j <= edges.len(),
            dangling <= j,
            (linked.deep_view(), dangling as nat) == edge_statements(
                edges.deep_view(),
                known.deep_view(),
                j as nat,
            ),
        decreases edges.len() - j,
    {
        let e = &edges[j];
        assert(edges.deep_view()[j as int] == e.deep_view());
        if known.contains(e.from.0.as_str()) && known.contains(e.to.0.as_str()) {
            text::push(&mut linked, tell_edge(e));
        } else {
            dangling += 1;
        }
        j += 1;
    }
    Loading { nodes: told, edges: linked, dangling }
}

/// Every edge is told or counted as dangling, and none both.
pub proof fn lemma_edges_accounted(edges: Seq<EdgeV>, known: Seq<(Text, ())>, n: nat)
    ensures
        edge_statements(edges, known, n).0.len() + edge_statements(edges, known, n).1 == n,
    decreases n,
{
    if n > 0 {
        lemma_edges_accounted(edges, known, (n - 1) as nat);
    }
}

/// What a parameter that an attribute fills holds: a text or a flag as it is, an
/// empty text where there is no such attribute.
pub open spec fn filled(params: Seq<(Text, DatumV)>, name: Text, attrs: Seq<(Text, JsonV)>, key: Text) -> bool {
    match table::lookup(attrs, key) {
        Some(JsonV::Str(s)) => table::lookup(params, name) == Some(DatumV::Str(s)),
        Some(JsonV::Bool(b)) => table::lookup(params, name) == Some(DatumV::Bool(b)),
        Some(JsonV::Minus(n)) => table::lookup(params, name) == Some(DatumV::Int(n)),
        Some(JsonV::Whole(n)) => n <= i64::MAX ==> table::lookup(params, name) == Some(
            DatumV::Int(n as i64),
        ),
        Some(_) => table::lookup(params, name) is Some,
        None => table::lookup(params, name) == Some(DatumV::Str(seq![])),
    }
}

proof fn lemma_with_attr(
    params: Seq<(Text, DatumV)>,
    attrs: Seq<(Text, JsonV)>,
    key: Text,
    name: Text,
)
    ensures
        filled(with_attr(params, attrs, key, name), name, attrs, key),
        forall|other: Text|
            other != name ==> #[trigger] table::lookup(with_attr(params, attrs, key, name), other)
                == table::lookup(params, other),
{
    let value = match table::lookup(attrs, key) {
        Some(v) => value_of(v),
        None => DatumV::Str(seq![]),
    };
    table::lemma_put_lookup(params, name, value, name);
    assert forall|other: Text| other != name implies #[trigger] table::lookup(
        with_attr(params, attrs, key, name),
        other,
    ) == table::lookup(params, other) by {
        table::lemma_put_lookup(params, name, value, other);
    }
}

proof fn lemma_with_datum(params: Seq<(Text, DatumV)>, name: Text, value: DatumV)
    ensures
        table::lookup(table::put(params, name, value), name) == Some(value),
        forall|other: Text|
            other != name ==> #[trigger] table::lookup(table::put(params, name, value), other)
                == table::lookup(params, other),
{
    table::lemma_put_lookup(params, name, value, name);
    assert forall|other: Text| other != name implies #[trigger] table::lookup(
        table::put(params, name, value),
        other,
    ) == table::lookup(params, other) by {
        table::lemma_put_lookup(params, name, value, other);
    }
}

/// An edge is told from its source to its target, with what it says of itself
/// and the first place it was seen at.
#[verifier::rlimit(40)]
pub proof fn lemma_edge_told(e: EdgeV)
    ensures
        table::lookup(edge_statement(e).params, "from"@) == Some(DatumV::Str(e.from)),
        table::lookup(edge_statement(e).params, "to"@) == Some(DatumV::Str(e.to)),
        filled(edge_statement(e).params, "via"@, e.attrs, "via"@),
        filled(edge_statement(e).params, "lint"@, e.attrs, "lint"@),
        filled(edge_statement(e).params, "breadth"@, e.attrs, "breadth"@),
        filled(edge_statement(e).params, "scope"@, e.attrs, "scope"@),
        filled(edge_statement(e).params, "role"@, e.attrs, "role"@),
        filled(edge_statement(e).params, "op"@, e.attrs, "op"@),
        filled(edge_statement(e).params, "form"@, e.attrs, "form"@),
        filled(edge_statement(e).params, "name"@, e.attrs, "name"@),
        e.ev.len() > 0 ==> table::lookup(edge_statement(e).params, "file"@) == Some(
            DatumV::Str(e.ev[0].file),
        ) && table::lookup(edge_statement(e).params, "line"@) == Some(
            DatumV::Int(e.ev[0].line.0 as i64),
        ),
        e.ev.len() == 0 ==> table::lookup(edge_statement(e).params, "file"@) == Some(
            DatumV::Str(seq![]),
        ) && table::lookup(edge_statement(e).params, "line"@) == Some(DatumV::Int(0)),
        text::has_prefix(
            edge_statement(e).query,
            "MATCH (a {id: $from}), (b {id: $to}) CREATE (a)-[:"@ + e.kind.spelled(),
        ),
        text::has_suffix(edge_statement(e).query, "]->(b)"@),
{
    reveal_strlit("from");
    reveal_strlit("to");
    reveal_strlit("via");
    reveal_strlit("lint");
    reveal_strlit("breadth");
    reveal_strlit("scope");
    reveal_strlit("role");
    reveal_strlit("op");
    reveal_strlit("form");
    reveal_strlit("name");
    reveal_strlit("file");
    reveal_strlit("line");
    assert("from"@[1] == 'r' && "form"@[1] == 'o' && "file"@[1] == 'i' && "role"@[0] == 'r');
    assert("name"@[0] == 'n' && "lint"@[3] == 't' && "line"@[3] == 'e' && "lint"@[0] == 'l');
    assert("line"@[0] == 'l' && "from"@[0] == 'f' && "form"@[0] == 'f' && "file"@[0] == 'f');
    let a = e.attrs;
    let (file, line) = if e.ev.len() > 0 {
        (e.ev[0].file, e.ev[0].line.0 as i64)
    } else {
        (seq![], 0i64)
    };
    let p0 = table::put(seq![], "from"@, DatumV::Str(e.from));
    let p1 = table::put(p0, "to"@, DatumV::Str(e.to));
    let p2 = with_attr(p1, a, "via"@, "via"@);
    let p3 = with_attr(p2, a, "lint"@, "lint"@);
    let p4 = with_attr(p3, a, "breadth"@, "breadth"@);
    let p5 = with_attr(p4, a, "scope"@, "scope"@);
    let p6 = with_attr(p5, a, "role"@, "role"@);
    let p7 = with_attr(p6, a, "op"@, "op"@);
    let p8 = with_attr(p7, a, "form"@, "form"@);
    let p9 = with_attr(p8, a, "name"@, "name"@);
    let p10 = table::put(p9, "file"@, DatumV::Str(file));
    lemma_with_datum(seq![], "from"@, DatumV::Str(e.from));
    lemma_with_datum(p0, "to"@, DatumV::Str(e.to));
    lemma_with_attr(p1, a, "via"@, "via"@);
    lemma_with_attr(p2, a, "lint"@, "lint"@);
    lemma_with_attr(p3, a, "breadth"@, "breadth"@);
    lemma_with_attr(p4, a, "scope"@, "scope"@);
    lemma_with_attr(p5, a, "role"@, "role"@);
    lemma_with_attr(p6, a, "op"@, "op"@);
    lemma_with_attr(p7, a, "form"@, "form"@);
    lemma_with_attr(p8, a, "name"@, "name"@);
    lemma_with_datum(p9, "file"@, DatumV::Str(file));
    lemma_with_datum(p10, "line"@, DatumV::Int(line));
    let query = edge_statement(e).query;
    let head = "MATCH (a {id: $from}), (b {id: $to}) CREATE (a)-[:"@ + e.kind.spelled();
    assert(query.subrange(0, head.len() as int) =~= head);
    reveal_strlit("]->(b)");
    reveal_strlit(
        " {via: $via, lint: $lint, breadth: $breadth, role: $role, file: $file, line: $line}]->(b)",
    );
    assert(query.subrange(query.len() - 6, query.len() as int) =~= "]->(b)"@);
}

/// A node is told by its id, its package and what it says of itself.
#[verifier::rlimit(40)]
pub proof fn lemma_node_told(node: NodeV)
    ensures
        table::lookup(node_statement(node).params, "id"@) == Some(DatumV::Str(node.id)),
        forall|package: Text, rest: Text|
            #![trigger package + "::"@ + rest]
            node.id == "sym:"@ + (package + "::"@ + rest) && !text::has_part(package, ":"@)
                ==> table::lookup(node_statement(node).params, "pkg"@) == Some(
                DatumV::Str(package),
            ),
        !text::has_prefix(node.id, "sym:"@) ==> table::lookup(
            node_statement(node).params,
            "pkg"@,
        ) == Some(DatumV::Str(seq![])),
        filled(node_statement(node).params, "name"@, node.attrs, "name"@),
        filled(node_statement(node).params, "lang_kind"@, node.attrs, "lang:kind"@),
        filled(node_statement(node).params, "path"@, node.attrs, "path"@),
        filled(node_statement(node).params, "text"@, node.attrs, "text"@),
        filled(node_statement(node).params, "lint"@, node.attrs, "lint"@),
        filled(node_statement(node).params, "body"@, node.attrs, "body"@),
        table::lookup(node.attrs, "lines"@) is Some ==> filled(
            node_statement(node).params,
            "lines"@,
            node.attrs,
            "lines"@,
        ),
        table::lookup(node.attrs, "lines"@) is None ==> table::lookup(
            node_statement(node).params,
            "lines"@,
        ) == Some(DatumV::Int(0)),
{
    reveal_strlit("id");
    reveal_strlit("pkg");
    reveal_strlit("name");
    reveal_strlit("lang_kind");
    reveal_strlit("path");
    reveal_strlit("text");
    reveal_strlit("lint");
    reveal_strlit("body");
    reveal_strlit("lines");
    reveal_strlit("lang:kind");
    let a = node.attrs;
    let lines = match table::lookup(a, "lines"@) {
        Some(v) => value_of(v),
        None => DatumV::Int(0),
    };
    let p0 = table::put(seq![], "id"@, DatumV::Str(node.id));
    let p1 = table::put(p0, "pkg"@, DatumV::Str(crate_of(node.id)));
    let p2 = with_attr(p1, a, "name"@, "name"@);
    let p3 = with_attr(p2, a, "lang:kind"@, "lang_kind"@);
    let p4 = with_attr(p3, a, "path"@, "path"@);
    let p5 = with_attr(p4, a, "text"@, "text"@);
    let p6 = with_attr(p5, a, "lint"@, "lint"@);
    let p7 = with_attr(p6, a, "body"@, "body"@);
    lemma_with_datum(seq![], "id"@, DatumV::Str(node.id));
    lemma_with_datum(p0, "pkg"@, DatumV::Str(crate_of(node.id)));
    lemma_with_attr(p1, a, "name"@, "name"@);
    lemma_with_attr(p2, a, "lang:kind"@, "lang_kind"@);
    lemma_with_attr(p3, a, "path"@, "path"@);
    lemma_with_attr(p4, a, "text"@, "text"@);
    lemma_with_attr(p5, a, "lint"@, "lint"@);
    lemma_with_attr(p6, a, "body"@, "body"@);
    lemma_with_datum(p7, "lines"@, lines);
    assert("name"@[0] != "path"@[0] && "name"@[0] != "text"@[0] && "name"@[0] != "lint"@[0]);
    assert("name"@[0] != "body"@[0] && "path"@[0] != "text"@[0] && "path"@[0] != "lint"@[0]);
    assert("path"@[0] != "body"@[0] && "text"@[0] != "lint"@[0] && "text"@[0] != "body"@[0]);
    assert("lint"@[0] != "body"@[0]);
    assert forall|package: Text, rest: Text|
        #![trigger package + "::"@ + rest]
        node.id == "sym:"@ + (package + "::"@ + rest) && !text::has_part(package, ":"@) implies
        crate_of(node.id) == package by {
        metrics::lemma_package_named(package, rest);
    }
}

/// What an engine is told of a stream's edges are its edges between declared
/// nodes: every statement is one of them, and every one of them is told.
pub proof fn lemma_edges_told(edges: Seq<EdgeV>, known: Seq<(Text, ())>, n: nat)
    requires
        n <= edges.len(),
    ensures
        forall|s: StatementV|
            #[trigger] edge_statements(edges, known, n).0.contains(s) ==> exists|k: int|
                0 <= k < n && table::lookup(known, (#[trigger] edges[k]).from) is Some
                    && table::lookup(known, edges[k].to) is Some && edge_statement(edges[k]) == s,
        forall|k: int|
            0 <= k < n && table::lookup(known, (#[trigger] edges[k]).from) is Some
                && table::lookup(known, edges[k].to) is Some
                ==> edge_statements(edges, known, n).0.contains(edge_statement(edges[k])),
        edge_statements(edges, known, n).1 == edges.take(n as int).filter(
            |e: EdgeV| table::lookup(known, e.from) is None || table::lookup(known, e.to) is None,
        ).len(),
    decreases n,
{
    let hangs = |e: EdgeV|
        table::lookup(known, e.from) is None || table::lookup(known, e.to) is None;
    reveal(Seq::filter);
    if n > 0 {
        lemma_edges_told(edges, known, (n - 1) as nat);
        let before = edge_statements(edges, known, (n - 1) as nat).0;
        let all = edge_statements(edges, known, n).0;
        assert(edges.take(n as int).drop_last() =~= edges.take(n - 1));
        assert(edges.take(n as int).last() == edges[n - 1]);
        assert forall|s: StatementV| #[trigger] all.contains(s) implies exists|k: int|
            0 <= k < n && table::lookup(known, (#[trigger] edges[k]).from) is Some && table::lookup(
                known,
                edges[k].to,
            ) is Some && edge_statement(edges[k]) == s by {
            let i = choose|i: int| 0 <= i < all.len() && all[i] == s;
            if i < before.len() {
                assert(before[i] == s);
                assert(before.contains(s));
            } else {
                assert(edge_statement(edges[n - 1]) == s);
            }
        }
        assert forall|k: int|
            0 <= k < n && table::lookup(known, (#[trigger] edges[k]).from) is Some && table::lookup(
                known,
                edges[k].to,
            ) is Some implies all.contains(edge_statement(edges[k])) by {
            if k < n - 1 {
                let at = choose|at: int|
                    0 <= at < before.len() && before[at] == edge_statement(edges[k]);
                assert(all[at] == before[at]);
            } else {
                assert(all[before.len() as int] == edge_statement(edges[k]));
            }
        }
    }
}

proof fn lemma_ids(nodes: Seq<NodeV>, n: nat, id: Text)
    requires
        n <= nodes.len(),
    ensures
        table::lookup(ids(nodes, n), id) is Some <==> exists|k: int|
            0 <= k < n && (#[trigger] nodes[k]).id == id,
    decreases n,
{
    if n > 0 {
        lemma_ids(nodes, (n - 1) as nat, id);
        table::lemma_put_lookup(ids(nodes, (n - 1) as nat), nodes[n - 1].id, (), id);
        if nodes[n - 1].id == id {
            assert(nodes[n - 1].id == id);
        }
    }
}

/// The nodes that edges are told between are those of the stream.
pub proof fn lemma_known_nodes(nodes: Seq<NodeV>, id: Text)
    ensures
        table::lookup(ids(nodes, nodes.len()), id) is Some <==> exists|k: int|
            0 <= k < nodes.len() && (#[trigger] nodes[k]).id == id,
{
    lemma_ids(nodes, nodes.len(), id);
}

// --- named queries -----------------------------------------------------------

/// The questions an audit asks: a name, what it is about, and the query.
pub open spec fn named_queries() -> Seq<(Text, Text, Text)> {
    seq![
        (
            "exit-in-library"@,
            "library crates that end the process"@,
            "MATCH (s:Symbol)-[e:effect_exec]->(:Capability) RETURN s.pkg, s.name, e.file, e.line"@,
        ),
    ].push(
        (
            "spawn-reach"@,
            "packages that contain a process spawn, however deeply nested"@,
            "MATCH (p:Package)-[:contains*1..6]->(s:Symbol)-[:spawns]->(t:Process) RETURN p.name, t.name, s.name"@,
        ),
    ).push(
        (
            "depends-on-host"@,
            "every crate that transitively depends on deka_host"@,
            "MATCH (a:Package)-[:depends_on*1..8]->(b:Package {name: 'deka_host'}) RETURN a.name"@,
        ),
    ).push(
        (
            "env-controlled"@,
            "spawn targets chosen by the environment"@,
            "MATCH (s:Symbol)-[e:spawns]->(t:Process) WHERE e.via = 'env' RETURN s.pkg, s.name, e.file, e.line"@,
        ),
    ).push(
        (
            "silenced"@,
            "lints switched off crate-wide"@,
            "MATCH (f)-[e:silences]->(:Capability) WHERE e.breadth = 'broad' RETURN e.lint, e.file"@,
        ),
    )
}

fn add_query(out: &mut Vec<(String, String, String)>, name: &str, about: &str, query: &str)
    ensures
        final(out).deep_view() == old(out).deep_view().push((name@, about@, query@)),
{
    text::push(out, (name.to_owned(), about.to_owned(), query.to_owned()));
}

pub fn named() -> (out: Vec<(String, String, String)>)
    ensures
        out.deep_view() == named_queries(),
{
    let mut out: Vec<(String, String, String)> = Vec::new();
    add_query(
        &mut out,
        "exit-in-library",
        "library crates that end the process",
        "MATCH (s:Symbol)-[e:effect_exec]->(:Capability) RETURN s.pkg, s.name, e.file, e.line",
    );
    add_query(
        &mut out,
        "spawn-reach",
        "packages that contain a process spawn, however deeply nested",
        "MATCH (p:Package)-[:contains*1..6]->(s:Symbol)-[:spawns]->(t:Process) RETURN p.name, t.name, s.name",
    );
    add_query(
        &mut out,
        "depends-on-host",
        "every crate that transitively depends on deka_host",
        "MATCH (a:Package)-[:depends_on*1..8]->(b:Package {name: 'deka_host'}) RETURN a.name",
    );
    add_query(
        &mut out,
        "env-controlled",
        "spawn targets chosen by the environment",
        "MATCH (s:Symbol)-[e:spawns]->(t:Process) WHERE e.via = 'env' RETURN s.pkg, s.name, e.file, e.line",
    );
    add_query(
        &mut out,
        "silenced",
        "lints switched off crate-wide",
        "MATCH (f)-[e:silences]->(:Capability) WHERE e.breadth = 'broad' RETURN e.lint, e.file",
    );
    assert(out.deep_view() =~= named_queries());
    out
}

/// The query of a name from the `n`th on.
pub open spec fn query_from(list: Seq<(Text, Text, Text)>, name: Text, n: nat) -> Option<Text>
    decreases list.len() - n,
{
    if n >= list.len() {
        None
    } else if list[n as int].0 == name {
        Some(list[n as int].2)
    } else {
        query_from(list, name, n + 1)
    }
}

fn query_named(name: &str) -> (query: Option<String>)
    ensures
        query.deep_view() == query_from(named_queries(), name@, 0),
{
    let list = named();
    let mut i: usize = 0;
    while i < list.len()
        invariant
            i <= list.len(),
            query_from(list.deep_view(), name@, 0) == query_from(
                list.deep_view(),
                name@,
                i as nat,
            ),
            list.deep_view() == named_queries(),
        decreases list.len() - i,
    {
        assert(list.deep_view()[i as int] == list@[i as int].deep_view());
        if text::same(list[i].0.as_str(), name) {
            return Some(list[i].2.clone());
        }
        i += 1;
    }
    None
}

/// What is to be done for a query.
pub enum Request {
    /// Listing the named queries.
    List,
    /// Running this one.
    Run(String),
}

pub enum RequestV {
    List,
    Run(Text),
}

impl DeepView for Request {
    type V = RequestV;

    open spec fn deep_view(&self) -> RequestV {
        match self {
            Request::List => RequestV::List,
            Request::Run(q) => RequestV::Run(q@),
        }
    }
}

/// What is asked for. A named query goes before one that is written out.
pub open spec fn request_of(named: Option<Text>, zql: Option<Text>) -> Result<RequestV, Text> {
    match (named, zql) {
        (Some(name), _) => if name == "list"@ {
            Ok(RequestV::List)
        } else {
            match query_from(named_queries(), name, 0) {
                Some(q) => Ok(RequestV::Run(q)),
                None => Err("no named query '"@ + name + "'; try --named list"@),
            }
        },
        (None, Some(q)) => Ok(RequestV::Run(q)),
        (None, None) => Err("give a query, or --named <name>"@),
    }
}

pub open spec fn seen(s: Option<&str>) -> Option<Text> {
    match s {
        Some(s) => Some(s@),
        None => None,
    }
}

pub fn request(named: Option<&str>, zql: Option<&str>) -> (r: Result<Request, String>)
    ensures
        match r {
            Ok(request) => request_of(seen(named), seen(zql)) == Ok::<RequestV, Text>(
                request.deep_view(),
            ),
            Err(e) => request_of(seen(named), seen(zql)) == Err::<RequestV, Text>(e@),
        },
{
    match named {
        Some(name) => {
            if text::same(name, "list") {
                return Ok(Request::List);
            }
            match query_named(name) {
                Some(q) => Ok(Request::Run(q)),
                None => Err(text::cat3("no named query '", name, "'; try --named list")),
            }
        },
        None => match zql {
            Some(q) => Ok(Request::Run(q.to_owned())),
            None => Err("give a query, or --named <name>".to_owned()),
        },
    }
}

pub open spec fn named_lines(list: Seq<(Text, Text, Text)>, n: nat) -> Seq<Text>
    decreases n,
{
    if n == 0 {
        seq!["named queries:"@]
    } else {
        named_lines(list, (n - 1) as nat).push(
            "  "@ + text::left_in(list[n - 1].0, 16) + " "@ + list[n - 1].1,
        )
    }
}

/// The named queries, for a reader.
pub fn list_named() -> (out: Vec<String>)
    ensures
        out.deep_view() == named_lines(named_queries(), named_queries().len()),
{
    let list = named();
    let mut out: Vec<String> = Vec::new();
    text::push(&mut out, "named queries:".to_owned());
    assert(out.deep_view() =~= seq!["named queries:"@]);
    let mut i: usize = 0;
    while i < list.len()
        invariant
            i <= list.len(),
            list.deep_view() == named_queries(),
            out.deep_view() == named_lines(list.deep_view(), i as nat),
        decreases list.len() - i,
    {
        assert(list.deep_view()[i as int] == list@[i as int].deep_view());
        text::push(
            &mut out,
            text::cat4(
                "  ",
                text::left(list[i].0.as_str(), 16).as_str(),
                " ",
                list[i].1.as_str(),
            ),
        );
        i += 1;
    }
    out
}

// --- cells -------------------------------------------------------------------

/// A value as a cell shows it.
pub open spec fn shown(v: DatumV) -> Text
    decreases v, 0nat,
{
    match v {
        DatumV::Str(s) => s,
        DatumV::Int(n) => text::signed_of(n as int),
        DatumV::Float(r) => r.text,
        DatumV::Bool(b) => if b {
            "true"@
        } else {
            "false"@
        },
        DatumV::Null => "—"@,
        DatumV::List(items) => text::joined(all_shown(items, items.len()), ", "@),
        DatumV::Fields(_) => "{…}"@,
    }
}

/// The first `n` values as cells show them.
pub open spec fn all_shown(items: Seq<DatumV>, n: nat) -> Seq<Text>
    decreases items, n,
{
    if n == 0 || n > items.len() {
        seq![]
    } else {
        all_shown(items, (n - 1) as nat).push(shown(items[n - 1]))
    }
}

fn show(value: &Datum) -> (s: String)
    ensures
        s@ == shown(value.deep_view()),
    decreases value,
{
    match value {
        Datum::Str(s) => s.clone(),
        Datum::Int(n) => text::signed(*n),
        Datum::Float(r) => r.text.clone(),
        Datum::Bool(b) => if *b {
            "true".to_owned()
        } else {
            "false".to_owned()
        },
        Datum::Null => "—".to_owned(),
        Datum::List(items) => {
            let ghost held = value.held()->List_0;
            let mut out: Vec<String> = Vec::new();
            assert(out.deep_view() =~= seq![]);
            let mut i: usize = 0;
            while i < items.len()
                invariant
                    i <= items.len(),
                    *value == Datum::List(*items),
                    held == value.held()->List_0,
                    out.deep_view() == all_shown(held, i as nat),
                decreases items.len() - i,
            {
                assert(decreases_to!(*value => value->List_0));
                assert(decreases_to!(*items => items@));
                assert(decreases_to!(items@ => items@[i as int]));
                assert(held[i as int] == items@[i as int].held());
                let cell = show(&items[i]);
                text::push(&mut out, cell);
                i += 1;
            }
            text::join(&out, ", ")
        },
        Datum::Fields(_) => "{…}".to_owned(),
    }
}

/// A value as JSON. A number that JSON cannot hold is nothing there.
pub open spec fn json_of(v: DatumV) -> JsonV
    decreases v,
{
    match v {
        DatumV::Str(s) => JsonV::Str(s),
        DatumV::Int(n) => if n < 0 {
            JsonV::Minus(n)
        } else {
            JsonV::Whole(n as u64)
        },
        DatumV::Float(r) => if measure::is_finite(r.bits) {
            JsonV::Part(r)
        } else {
            JsonV::Null
        },
        DatumV::Bool(b) => JsonV::Bool(b),
        DatumV::Null => JsonV::Null,
        DatumV::List(items) => JsonV::List(
            Seq::new(
                items.len(),
                |i: int|
                    if 0 <= i < items.len() {
                        json_of(items[i])
                    } else {
                        JsonV::Null
                    },
            ),
        ),
        DatumV::Fields(fields) => JsonV::Object(
            Seq::new(
                fields.len(),
                |i: int|
                    if 0 <= i < fields.len() {
                        (fields[i].0, json_of(fields[i].1))
                    } else {
                        (seq![], JsonV::Null)
                    },
            ),
        ),
    }
}

fn as_json(value: &Datum) -> (j: Json)
    ensures
        j.deep_view() == json_of(value.deep_view()),
    decreases value,
{
    match value {
        Datum::Str(s) => Json::Str(s.clone()),
        Datum::Int(n) => if *n < 0 {
            Json::Minus(*n)
        } else {
            Json::Whole(*n as u64)
        },
        Datum::Float(r) => if measure::is_bounded(r.bits) {
            Json::Part(r.copy())
        } else {
            Json::Null
        },
        Datum::Bool(b) => Json::Bool(*b),
        Datum::Null => Json::Null,
        Datum::List(items) => {
            let mut out: Vec<Json> = Vec::new();
            let mut i: usize = 0;
            while i < items.len()
                invariant
                    i <= items.len(),
                    *value == Datum::List(*items),
                    out@.len() == i,
                    forall|k: int|
                        0 <= k < i ==> (#[trigger] out@[k]).deep_view() == json_of(items@[k].held()),
                decreases items.len() - i,
            {
                assert(decreases_to!(*value => value->List_0));
                assert(decreases_to!(*items => items@));
                assert(decreases_to!(items@ => items@[i as int]));
                let item = as_json(&items[i]);
                out.push(item);
                i += 1;
            }
            assert(out.deep_view() =~= json_of(value.held())->List_0);
            Json::list(out)
        },
        Datum::Fields(fields) => {
            let mut out: Vec<(String, Json)> = Vec::new();
            let mut i: usize = 0;
            while i < fields.len()
                invariant
                    i <= fields.len(),
                    *value == Datum::Fields(*fields),
                    out@.len() == i,
                    forall|k: int|
                        0 <= k < i ==> (#[trigger] out@[k]).0@ == fields@[k].0@
                            && out@[k].1.deep_view() == json_of(fields@[k].1.held()),
                decreases fields.len() - i,
            {
                assert(decreases_to!(*value => value->Fields_0));
                assert(decreases_to!(*fields => fields@));
                assert(decreases_to!(fields@ => fields@[i as int]));
                assert(decreases_to!(fields@[i as int] => fields@[i as int].1));
                let item = as_json(&fields[i].1);
                out.push((fields[i].0.clone(), item));
                i += 1;
            }
            assert(out.deep_view() =~= json_of(value.held())->Object_0);
            Json::object(out)
        },
    }
}

pub open spec fn row_json(row: Seq<(Text, DatumV)>) -> JsonV {
    JsonV::Object(Seq::new(row.len(), |i: int| (row[i].0, json_of(row[i].1))))
}

fn write_row(row: &Row) -> (j: Json)
    ensures
        j.deep_view() == row_json(row.deep_view()),
{
    let ghost held = row.deep_view();
    let mut fields = json::no_fields();
    let end: usize = row.len();
    let mut i: usize = 0;
    while i < end
        invariant
            i <= end == held.len(),
            held == row.deep_view(),
            fields.deep_view() == Seq::new(i as nat, |k: int| (held[k].0, json_of(held[k].1))),
        decreases end - i,
    {
        crate::json::add(&mut fields, row.name_at(i).as_str(), as_json(row.value_at(i)));
        assert(fields.deep_view() =~= Seq::new(
            (i + 1) as nat,
            |k: int| (held[k].0, json_of(held[k].1)),
        ));
        i += 1;
    }
    Json::object(fields)
}

/// Rows as JSON, for a program.
pub fn rows_json(rows: &Vec<Row>) -> (j: Json)
    ensures
        j.deep_view() == JsonV::List(
            Seq::new(rows@.len(), |i: int| row_json(rows.deep_view()[i])),
        ),
{
    let mut out: Vec<Json> = Vec::new();
    let mut i: usize = 0;
    while i < rows.len()
        invariant
            i <= rows.len(),
            out.deep_view() == Seq::new(i as nat, |k: int| row_json(rows.deep_view()[k])),
        decreases rows.len() - i,
    {
        assert(rows.deep_view()[i as int] == rows@[i as int].deep_view());
        text::push(&mut out, write_row(&rows[i]));
        assert(out.deep_view() =~= Seq::new(
            (i + 1) as nat,
            |k: int| row_json(rows.deep_view()[k]),
        ));
        i += 1;
    }
    Json::list(out)
}

// --- columns -----------------------------------------------------------------

/// The least of two positions, where there are any.
pub open spec fn sooner(a: Option<int>, b: Option<int>) -> Option<int> {
    match (a, b) {
        (Some(x), Some(y)) => Some(
            if y < x {
                y
            } else {
                x
            },
        ),
        (Some(x), None) => Some(x),
        (None, _) => b,
    }
}

/// Where the columns end: at the first clause that may follow them.
pub open spec fn columns_end(tail: Text) -> int {
    let low = text::lower_of(tail);
    match sooner(
        sooner(text::find(low, "order by"@), text::find(low, "limit"@)),
        text::find(low, "skip"@),
    ) {
        Some(at) => at,
        None => tail.len() as int,
    }
}

/// The parts of a list that say something, without the space around them.
pub open spec fn parts_named(parts: Seq<Text>, n: nat) -> Seq<Text>
    decreases n,
{
    if n == 0 {
        seq![]
    } else {
        let before = parts_named(parts, (n - 1) as nat);
        let part = text::trimmed(parts[n - 1]);
        if part.len() > 0 {
            before.push(part)
        } else {
            before
        }
    }
}

/// The columns that a query names, in the order it names them. Its last
/// `RETURN` does, in whatever case.
pub open spec fn columns_named(query: Text) -> Seq<Text> {
    match text::rfind(text::lower_of(query), "return "@) {
        Some(at) => {
            let tail = query.skip(at + 7);
            let parts = text::pieces(tail.take(columns_end(tail)), ","@);
            parts_named(parts, parts.len())
        },
        None => seq![],
    }
}

/// Every name is a column of a row.
pub open spec fn all_held(names: Seq<Text>, row: Seq<(Text, DatumV)>) -> bool {
    forall|i: int| 0 <= i < names.len() ==> table::lookup(row, #[trigger] names[i]) is Some
}

pub open spec fn names_of(row: Seq<(Text, DatumV)>) -> Seq<Text> {
    Seq::new(row.len(), |i: int| row[i].0)
}

/// The columns of a result. What the query names is believed only where it is
/// what the rows are keyed by; otherwise the keys of the first row, in order.
pub open spec fn columns_of(query: Text, rows: Seq<Seq<(Text, DatumV)>>) -> Seq<Text> {
    let named = columns_named(query);
    if named.len() > 0 && (rows.len() > 0 ==> all_held(named, rows[0])) {
        named
    } else if rows.len() > 0 {
        names_of(rows[0])
    } else {
        seq![]
    }
}

fn find_in(s: &Vec<char>, part: &str) -> (at: Option<usize>)
    ensures
        match at {
            Some(i) => text::find(s@, part@) == Some(i as int) && i + part@.len() <= s@.len(),
            None => text::find(s@, part@) is None,
        },
{
    let part = text::to_chars(part);
    proof {
        text::lemma_find_from(s@, part@, 0);
    }
    text::find_chars(s, &part, 0)
}

fn end_of_columns(tail: &Vec<char>, low: &Vec<char>) -> (end: usize)
    requires
        low@ == text::lower_of(tail@),
    ensures
        end == columns_end(tail@),
        end <= tail@.len(),
{
    let mut end: Option<usize> = find_in(low, "order by");
    if let Some(at) = find_in(low, "limit") {
        end = match end {
            Some(held) => if at < held {
                Some(at)
            } else {
                Some(held)
            },
            None => Some(at),
        };
    }
    if let Some(at) = find_in(low, "skip") {
        end = match end {
            Some(held) => if at < held {
                Some(at)
            } else {
                Some(held)
            },
            None => Some(at),
        };
    }
    match end {
        Some(at) => at,
        None => tail.len(),
    }
}

fn read_columns(query: &str) -> (out: Vec<String>)
    ensures
        out.deep_view() == columns_named(query@),
{
    proof {
        reveal_strlit("return ");
        reveal_strlit(",");
    }
    let mut out: Vec<String> = Vec::new();
    assert(out.deep_view() =~= seq![]);
    let low = text::lower(query);
    let at: usize = match text::rsplit_once(low.as_str(), "return ") {
        Some((head, _)) => {
            proof {
                text::lemma_rfind_from(low@, "return "@, low@.len() - 7);
                assert(head@ == low@.take(text::rfind(low@, "return "@)->Some_0));
                assert(head@.len() + 7 <= query@.len());
            }
            text::to_chars(head.as_str()).len()
        },
        None => return out,
    };
    let chars = text::to_chars(query);
    let whole: usize = chars.len();
    let tail = text::slice(&chars, at + 7, whole);
    assert(tail@ =~= query@.skip(at + 7));
    let tail_chars = text::to_chars(tail.as_str());
    let tail_low = text::to_chars(text::lower(tail.as_str()).as_str());
    let end: usize = end_of_columns(&tail_chars, &tail_low);
    let named = text::slice(&tail_chars, 0, end);
    assert(named@ =~= tail@.take(end as int));
    let parts = text::split(named.as_str(), ",");
    let mut i: usize = 0;
    while i < parts.len()
        invariant
            i <= parts.len(),
            out.deep_view() == parts_named(parts.deep_view(), i as nat),
        decreases parts.len() - i,
    {
        assert(parts.deep_view()[i as int] == parts@[i as int]@);
        let part = text::trim(parts[i].as_str());
        if !text::is_empty(part.as_str()) {
            text::push(&mut out, part);
        }
        i += 1;
    }
    out
}

fn holds_all(names: &Vec<String>, row: &Row) -> (r: bool)
    ensures
        r == all_held(names.deep_view(), row.deep_view()),
{
    let mut i: usize = 0;
    while i < names.len()
        invariant
            i <= names.len(),
            forall|k: int|
                0 <= k < i ==> table::lookup(row.deep_view(), #[trigger] names.deep_view()[k]) is Some,
        decreases names.len() - i,
    {
        assert(names.deep_view()[i as int] == names@[i as int]@);
        if !row.contains(names[i].as_str()) {
            return false;
        }
        i += 1;
    }
    true
}

fn columns(query: &str, rows: &Vec<Row>) -> (out: Vec<String>)
    ensures
        out.deep_view() == columns_of(query@, rows.deep_view()),
{
    let named = read_columns(query);
    if rows.len() == 0 {
        assert(named.deep_view() =~= columns_of(query@, rows.deep_view()));
        return named;
    }
    assert(rows.deep_view()[0] == rows@[0].deep_view());
    if named.len() > 0 && holds_all(&named, &rows[0]) {
        return named;
    }
    rows[0].names()
}

// --- a table -----------------------------------------------------------------

/// How many rows a terminal is shown before it stops being a terminal.
pub const ROWS: usize = 40;

/// The widest a cell gets before it is cut.
pub const CELL: usize = 44;

pub open spec fn clipped(s: Text) -> Text {
    if s.len() <= CELL {
        s
    } else {
        s.take(CELL - 1) + "…"@
    }
}

pub fn clip(s: &str) -> (out: String)
    ensures
        out@ == clipped(s@),
{
    let chars = text::to_chars(s);
    if chars.len() <= CELL {
        s.to_owned()
    } else {
        let head = text::slice(&chars, 0, CELL - 1);
        assert(head@ =~= s@.take(CELL - 1));
        text::cat(head.as_str(), "…")
    }
}

pub open spec fn cell_of(row: Seq<(Text, DatumV)>, column: Text) -> Text {
    clipped(
        match table::lookup(row, column) {
            Some(v) => shown(v),
            None => seq![],
        },
    )
}

pub open spec fn cells_of(row: Seq<(Text, DatumV)>, columns: Seq<Text>) -> Seq<Text> {
    Seq::new(columns.len(), |i: int| cell_of(row, columns[i]))
}

fn read_cells(row: &Row, columns: &Vec<String>) -> (out: Vec<String>)
    ensures
        out.deep_view() == cells_of(row.deep_view(), columns.deep_view()),
{
    let mut out: Vec<String> = Vec::new();
    let mut i: usize = 0;
    while i < columns.len()
        invariant
            i <= columns.len(),
            out.deep_view() == Seq::new(
                i as nat,
                |k: int| cell_of(row.deep_view(), columns.deep_view()[k]),
            ),
        decreases columns.len() - i,
    {
        assert(columns.deep_view()[i as int] == columns@[i as int]@);
        let cell = match row.get(columns[i].as_str()) {
            Some(v) => show(v),
            None => text::empty(),
        };
        text::push(&mut out, clip(cell.as_str()));
        assert(out.deep_view() =~= Seq::new(
            (i + 1) as nat,
            |k: int| cell_of(row.deep_view(), columns.deep_view()[k]),
        ));
        i += 1;
    }
    out
}

pub open spec fn wider(a: nat, b: nat) -> nat {
    if a < b {
        b
    } else {
        a
    }
}

/// How wide a column is over the first `n` rows.
pub open spec fn width_of(columns: Seq<Text>, cells: Seq<Seq<Text>>, i: int, n: nat) -> nat
    decreases n,
{
    if n == 0 {
        columns[i].len()
    } else {
        wider(width_of(columns, cells, i, (n - 1) as nat), cells[n - 1][i].len())
    }
}

pub open spec fn widths_of(columns: Seq<Text>, cells: Seq<Seq<Text>>) -> Seq<nat> {
    Seq::new(columns.len(), |i: int| width_of(columns, cells, i, cells.len()))
}

pub open spec fn is_grid(cells: Seq<Seq<Text>>, columns: Seq<Text>) -> bool {
    forall|k: int| 0 <= k < cells.len() ==> (#[trigger] cells[k]).len() == columns.len()
}

fn read_widths(columns: &Vec<String>, cells: &Vec<Vec<String>>) -> (out: Vec<usize>)
    requires
        is_grid(cells.deep_view(), columns.deep_view()),
    ensures
        Seq::new(out@.len(), |i: int| out@[i] as nat) == widths_of(
            columns.deep_view(),
            cells.deep_view(),
        ),
{
    let ghost wanted = widths_of(columns.deep_view(), cells.deep_view());
    let mut out: Vec<usize> = Vec::new();
    let mut i: usize = 0;
    while i < columns.len()
        invariant
            i <= columns.len(),
            out@.len() == i,
            is_grid(cells.deep_view(), columns.deep_view()),
            wanted == widths_of(columns.deep_view(), cells.deep_view()),
            forall|k: int| 0 <= k < i ==> #[trigger] out@[k] == wanted[k],
        decreases columns.len() - i,
    {
        assert(columns.deep_view()[i as int] == columns@[i as int]@);
        let mut width: usize = text::to_chars(columns[i].as_str()).len();
        let mut j: usize = 0;
        while j < cells.len()
            invariant
                j <= cells.len(),
                i < columns.len(),
                is_grid(cells.deep_view(), columns.deep_view()),
                width == width_of(columns.deep_view(), cells.deep_view(), i as int, j as nat),
            decreases cells.len() - j,
        {
            let row = &cells[j];
            assert(cells.deep_view()[j as int] == row.deep_view());
            assert(row.deep_view().len() == columns.deep_view().len());
            assert(row.deep_view()[i as int] == row@[i as int]@);
            let held: usize = text::to_chars(row[i].as_str()).len();
            if width < held {
                width = held;
            }
            j += 1;
        }
        out.push(width);
        i += 1;
    }
    assert(Seq::new(out@.len(), |i: int| out@[i] as nat) =~= wanted);
    out
}

pub open spec fn padded(cells: Seq<Text>, widths: Seq<nat>) -> Seq<Text> {
    Seq::new(cells.len(), |i: int| text::left_in(cells[i], widths[i]))
}

pub open spec fn row_line(cells: Seq<Text>, widths: Seq<nat>) -> Text {
    "  "@ + text::trimmed_end(text::joined(padded(cells, widths), "  "@))
}

fn show_row(cells: &Vec<String>, widths: &Vec<usize>) -> (s: String)
    requires
        cells@.len() == widths@.len(),
    ensures
        s@ == row_line(cells.deep_view(), Seq::new(widths@.len(), |i: int| widths@[i] as nat)),
{
    let ghost w = Seq::new(widths@.len(), |i: int| widths@[i] as nat);
    let mut out: Vec<String> = Vec::new();
    let mut i: usize = 0;
    while i < cells.len()
        invariant
            i <= cells.len() == widths.len(),
            w == Seq::new(widths@.len(), |i: int| widths@[i] as nat),
            out.deep_view() == Seq::new(
                i as nat,
                |k: int| text::left_in(cells.deep_view()[k], w[k]),
            ),
        decreases cells.len() - i,
    {
        assert(cells.deep_view()[i as int] == cells@[i as int]@);
        text::push(&mut out, text::left(cells[i].as_str(), widths[i]));
        assert(out.deep_view() =~= Seq::new(
            (i + 1) as nat,
            |k: int| text::left_in(cells.deep_view()[k], w[k]),
        ));
        i += 1;
    }
    assert(out.deep_view() =~= padded(cells.deep_view(), w));
    text::cat("  ", text::trim_end(text::join(&out, "  ").as_str()).as_str())
}

pub open spec fn rule_line(widths: Seq<nat>) -> Text {
    "  "@ + text::joined(
        Seq::new(widths.len(), |i: int| text::repeated('─', widths[i])),
        "  "@,
    )
}

fn show_rule(widths: &Vec<usize>) -> (s: String)
    ensures
        s@ == rule_line(Seq::new(widths@.len(), |i: int| widths@[i] as nat)),
{
    let ghost w = Seq::new(widths@.len(), |i: int| widths@[i] as nat);
    let mut out: Vec<String> = Vec::new();
    let mut i: usize = 0;
    while i < widths.len()
        invariant
            i <= widths.len(),
            w == Seq::new(widths@.len(), |i: int| widths@[i] as nat),
            out.deep_view() == Seq::new(i as nat, |k: int| text::repeated('─', w[k])),
        decreases widths.len() - i,
    {
        text::push(&mut out, text::repeat('─', widths[i] as u64));
        assert(out.deep_view() =~= Seq::new(
            (i + 1) as nat,
            |k: int| text::repeated('─', w[k]),
        ));
        i += 1;
    }
    assert(out.deep_view() =~= Seq::new(w.len(), |i: int| text::repeated('─', w[i])));
    text::cat("  ", text::join(&out, "  ").as_str())
}

pub open spec fn row_lines(out: Seq<Text>, cells: Seq<Seq<Text>>, widths: Seq<nat>, n: nat) -> Seq<Text>
    decreases n,
{
    if n == 0 {
        out
    } else {
        row_lines(out, cells, widths, (n - 1) as nat).push(row_line(cells[n - 1], widths))
    }
}

/// How many rows are shown.
pub open spec fn rows_shown(n: nat) -> nat {
    if n < ROWS {
        n
    } else {
        ROWS as nat
    }
}

/// Rows as a table, because a person asked.
pub open spec fn table_lines(query: Text, rows: Seq<Seq<(Text, DatumV)>>) -> Seq<Text> {
    if rows.len() == 0 {
        seq!["  no rows"@]
    } else {
        let columns = columns_of(query, rows);
        let cells = Seq::new(rows_shown(rows.len()), |i: int| cells_of(rows[i], columns));
        let widths = widths_of(columns, cells);
        let head = seq![row_line(columns, widths)].push(rule_line(widths));
        let lines = row_lines(head, cells, widths, cells.len());
        if rows.len() > ROWS {
            lines.push("  … "@ + text::decimal_of((rows.len() - ROWS) as nat) + " more"@)
        } else {
            lines
        }
    }
}

fn read_grid(rows: &Vec<Row>, columns: &Vec<String>) -> (cells: Vec<Vec<String>>)
    ensures
        cells.deep_view() == Seq::new(
            rows_shown(rows@.len()),
            |i: int| cells_of(rows.deep_view()[i], columns.deep_view()),
        ),
{
    let mut cells: Vec<Vec<String>> = Vec::new();
    let mut i: usize = 0;
    while i < rows.len() && i < ROWS
        invariant
            i <= rows.len(),
            i <= ROWS,
            cells.deep_view() == Seq::new(
                i as nat,
                |k: int| cells_of(rows.deep_view()[k], columns.deep_view()),
            ),
        decreases rows.len() - i,
    {
        assert(rows.deep_view()[i as int] == rows@[i as int].deep_view());
        text::push(&mut cells, read_cells(&rows[i], columns));
        assert(cells.deep_view() =~= Seq::new(
            (i + 1) as nat,
            |k: int| cells_of(rows.deep_view()[k], columns.deep_view()),
        ));
        i += 1;
    }
    cells
}

pub fn table(query: &str, rows: &Vec<Row>) -> (out: Vec<String>)
    ensures
        out.deep_view() == table_lines(query@, rows.deep_view()),
{
    let mut out: Vec<String> = Vec::new();
    if rows.len() == 0 {
        text::push(&mut out, "  no rows".to_owned());
        assert(out.deep_view() =~= seq!["  no rows"@]);
        return out;
    }
    let columns = columns(query, rows);
    let cells = read_grid(rows, &columns);
    assert(is_grid(cells.deep_view(), columns.deep_view()));
    let widths = read_widths(&columns, &cells);
    let ghost w = widths_of(columns.deep_view(), cells.deep_view());
    assert(widths@.len() == w.len());
    text::push(&mut out, show_row(&columns, &widths));
    text::push(&mut out, show_rule(&widths));
    let ghost head = seq![row_line(columns.deep_view(), w)].push(rule_line(w));
    assert(out.deep_view() =~= head);
    let mut i: usize = 0;
    while i < cells.len()
        invariant
            i <= cells.len(),
            is_grid(cells.deep_view(), columns.deep_view()),
            widths@.len() == columns@.len(),
            w == Seq::new(widths@.len(), |i: int| widths@[i] as nat),
            out.deep_view() == row_lines(head, cells.deep_view(), w, i as nat),
        decreases cells.len() - i,
    {
        assert(cells.deep_view()[i as int] == cells@[i as int].deep_view());
        assert(cells@[i as int].deep_view().len() == columns.deep_view().len());
        text::push(&mut out, show_row(&cells[i], &widths));
        i += 1;
    }
    if rows.len() > ROWS {
        let rest: u64 = (rows.len() - ROWS) as u64;
        text::push(&mut out, text::cat3("  … ", text::decimal(rest).as_str(), " more"));
    }
    out
}

/// The line below a table: how many rows there are, and what it took.
pub open spec fn foot_line(rows: nat, s: StreamV, secs: Text, ms: Text) -> Text {
    text::decimal_of(rows) + " rows · loaded "@ + text::decimal_of(s.nodes.len()) + " nodes and "@
        + text::decimal_of(s.edges.len()) + " edges in "@ + secs + "s · query "@ + ms + "ms"@
}

pub fn foot(rows: usize, stream: &Stream, secs: &str, ms: &str) -> (s: String)
    ensures
        s@ == foot_line(rows as nat, stream.deep_view(), secs@, ms@),
{
    let mut s = text::cat(text::decimal(rows as u64).as_str(), " rows · loaded ");
    text::extend(&mut s, text::decimal(stream.nodes.len() as u64).as_str());
    text::extend(&mut s, " nodes and ");
    text::extend(&mut s, text::decimal(stream.edges.len() as u64).as_str());
    text::extend(&mut s, " edges in ");
    text::extend(&mut s, secs);
    text::extend(&mut s, "s · query ");
    text::extend(&mut s, ms);
    text::extend(&mut s, "ms");
    s
}

/// A node is told under a label of its kind, which is that of no other kind.
pub proof fn lemma_labelled(a: NodeV, b: NodeV)
    ensures
        text::has_prefix(
            node_statement(a).query,
            "CREATE (n:"@ + label_of(a.kind) + " {"@,
        ),
        a.kind != b.kind ==> label_of(a.kind) != label_of(b.kind),
{
    let rest =
        " {id: $id, name: $name, pkg: $pkg, kind: $lang_kind, path: $path, text: $text, lines: $lines})"@;
    reveal_strlit(" {");
    reveal_strlit(
        " {id: $id, name: $name, pkg: $pkg, kind: $lang_kind, path: $path, text: $text, lines: $lines})",
    );
    let start = "CREATE (n:"@ + label_of(a.kind);
    assert(rest.len() >= 2 && rest[0] == ' ' && rest[1] == '{');
    assert(" {"@.len() == 2 && " {"@[0] == ' ' && " {"@[1] == '{');
    assert(node_statement(a).query == start + rest);
    assert((start + rest).subrange(0, (start + " {"@).len() as int) =~= start + " {"@);
    reveal_strlit("System");
    reveal_strlit("Binary");
    reveal_strlit("Package");
    reveal_strlit("Directory");
    reveal_strlit("File");
    reveal_strlit("Symbol");
    reveal_strlit("Type");
    reveal_strlit("Process");
    reveal_strlit("EnvVar");
    reveal_strlit("Capability");
    reveal_strlit("External");
    assert("System"@.len() == 6 && "System"@[0] == 'S' && "System"@[2] == 's');
    assert("Binary"@.len() == 6 && "Binary"@[0] == 'B' && "Binary"@[1] == 'i');
    assert("Package"@.len() == 7 && "Package"@[0] == 'P' && "Package"@[1] == 'a');
    assert("Directory"@.len() == 9 && "Directory"@[0] == 'D' && "Directory"@[1] == 'i');
    assert("File"@.len() == 4 && "File"@[0] == 'F' && "File"@[1] == 'i');
    assert("Symbol"@.len() == 6 && "Symbol"@[0] == 'S' && "Symbol"@[2] == 'm');
    assert("Type"@.len() == 4 && "Type"@[0] == 'T' && "Type"@[1] == 'y');
    assert("Process"@.len() == 7 && "Process"@[0] == 'P' && "Process"@[1] == 'r');
    assert("EnvVar"@.len() == 6 && "EnvVar"@[0] == 'E' && "EnvVar"@[1] == 'n');
    assert("Capability"@.len() == 10 && "Capability"@[0] == 'C' && "Capability"@[1] == 'a');
    assert("External"@.len() == 8 && "External"@[0] == 'E' && "External"@[1] == 'x');
}


/// A column is as wide as its widest cell, its heading among them.
pub proof fn lemma_widths(columns: Seq<Text>, cells: Seq<Seq<Text>>, i: int, n: nat)
    requires
        0 <= i < columns.len(),
        n <= cells.len(),
    ensures
        columns[i].len() <= width_of(columns, cells, i, n),
        forall|k: int| 0 <= k < n ==> (#[trigger] cells[k])[i].len() <= width_of(columns, cells, i, n),
        width_of(columns, cells, i, n) == columns[i].len() || exists|k: int|
            0 <= k < n && (#[trigger] cells[k])[i].len() == width_of(columns, cells, i, n),
    decreases n,
{
    if n > 0 {
        lemma_widths(columns, cells, i, (n - 1) as nat);
        let last = cells[n - 1];
        let before = width_of(columns, cells, i, (n - 1) as nat);
        if before != columns[i].len() && before >= last[i].len() {
            let k = choose|k: int| 0 <= k < n - 1 && (#[trigger] cells[k])[i].len() == before;
            assert(cells[k][i].len() == width_of(columns, cells, i, n));
        }
    }
}

/// A cell is what the row holds under its column, whole where it fits, and else as
/// much of its beginning as leaves a place for the mark.
pub proof fn lemma_cell_shown(row: Seq<(Text, DatumV)>, column: Text, value: DatumV)
    requires
        table::lookup(row, column) == Some(value),
    ensures
        cell_of(row, column).len() <= CELL,
        shown(value).len() <= CELL ==> cell_of(row, column) == shown(value),
        shown(value).len() > CELL ==> cell_of(row, column).len() == CELL && cell_of(
            row,
            column,
        ).last() == '…' && cell_of(row, column).drop_last() == shown(value).take(CELL - 1),
{
    reveal_strlit("…");
    assert("…"@.len() == 1 && "…"@[0] == '…');
    if shown(value).len() > CELL {
        assert(cell_of(row, column).drop_last() =~= shown(value).take(CELL - 1));
    }
}

proof fn lemma_row_lines(out: Seq<Text>, cells: Seq<Seq<Text>>, widths: Seq<nat>, n: nat)
    requires
        n <= cells.len(),
    ensures
        row_lines(out, cells, widths, n).len() == out.len() + n,
        forall|k: int|
            0 <= k < n ==> row_lines(out, cells, widths, n)[out.len() + k] == row_line(
                #[trigger] cells[k],
                widths,
            ),
        row_lines(out, cells, widths, n).take(out.len() as int) == out,
    decreases n,
{
    if n > 0 {
        lemma_row_lines(out, cells, widths, (n - 1) as nat);
        let before = row_lines(out, cells, widths, (n - 1) as nat);
        assert(row_lines(out, cells, widths, n).take(out.len() as int) =~= before.take(
            out.len() as int,
        ));
        assert forall|k: int| 0 <= k < n implies row_lines(out, cells, widths, n)[out.len() + k]
            == row_line(#[trigger] cells[k], widths) by {
            if k < n - 1 {
                assert(before[out.len() + k] == row_line(cells[k], widths));
            }
        }
    } else {
        assert(out.take(out.len() as int) =~= out);
    }
}

/// A table has a heading, a rule and a line for each row up to the most that are
/// shown, and says how many are left.
pub proof fn lemma_table_lines(query: Text, rows: Seq<Seq<(Text, DatumV)>>)
    requires
        rows.len() > 0,
    ensures
        rows.len() <= ROWS ==> table_lines(query, rows).len() == rows.len() + 2,
        rows.len() > ROWS ==> table_lines(query, rows).len() == ROWS + 3 && table_lines(
            query,
            rows,
        ).last() == "  … "@ + text::decimal_of((rows.len() - ROWS) as nat) + " more"@,
{
    let columns = columns_of(query, rows);
    let cells = Seq::new(rows_shown(rows.len()), |i: int| cells_of(rows[i], columns));
    let widths = widths_of(columns, cells);
    let head = seq![row_line(columns, widths)].push(rule_line(widths));
    lemma_row_lines(head, cells, widths, cells.len());
}

/// A named query is the first of its name.
pub proof fn lemma_named(list: Seq<(Text, Text, Text)>, name: Text, n: nat)
    requires
        n <= list.len(),
    ensures
        match query_from(list, name, n) {
            Some(query) => exists|i: int|
                n <= i < list.len() && (#[trigger] list[i]).0 == name && list[i].2 == query && (
                forall|j: int| n <= j < i ==> (#[trigger] list[j]).0 != name),
            None => forall|i: int| n <= i < list.len() ==> (#[trigger] list[i]).0 != name,
        },
    decreases list.len() - n,
{
    if n < list.len() && list[n as int].0 != name {
        lemma_named(list, name, n + 1);
    }
}

/// The columns end where the first of what may follow them begins.
pub proof fn lemma_columns_end(tail: Text)
    ensures
        ({
            let low = text::lower_of(tail);
            let at = columns_end(tail);
            &&& text::find(low, "order by"@) matches Some(i) ==> at <= i
            &&& text::find(low, "limit"@) matches Some(i) ==> at <= i
            &&& text::find(low, "skip"@) matches Some(i) ==> at <= i
            &&& text::find(low, "order by"@) == Some(at) || text::find(low, "limit"@) == Some(at)
                || text::find(low, "skip"@) == Some(at) || at == tail.len()
        }),
{
}

}
