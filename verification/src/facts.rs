//! Reading a fact stream back into memory.

use vstd::hash_map::StringHashMap;
use vstd::hash_set::StringHashSet;
use vstd::prelude::*;

use crate::json::{self, Json, JsonV};
use crate::said;
use crate::schema::{Edge, EdgeV, Fact, FactV, Node, NodeV};
use crate::table::{self, Table};
use crate::text::{self, Text};
use crate::wire;

verus! {

/// What a stream said: its nodes and edges in the order they came, and what
/// the last header called the schema and the root.
pub struct Stream {
    pub nodes: Vec<Node>,
    pub edges: Vec<Edge>,
    pub schema: String,
    pub root: String,
}

pub struct StreamV {
    pub nodes: Seq<NodeV>,
    pub edges: Seq<EdgeV>,
    pub schema: Text,
    pub root: Text,
}

impl DeepView for Stream {
    type V = StreamV;

    open spec fn deep_view(&self) -> StreamV {
        StreamV {
            nodes: self.nodes.deep_view(),
            edges: self.edges.deep_view(),
            schema: self.schema@,
            root: self.root@,
        }
    }
}

impl StreamV {
    pub open spec fn empty() -> StreamV {
        StreamV { nodes: seq![], edges: seq![], schema: seq![], root: seq![] }
    }

    /// The stream after one more line. A line that is no fact says nothing.
    pub open spec fn told(self, fact: Option<FactV>) -> StreamV {
        match fact {
            Some(FactV::Header { schema, extractor, root }) => StreamV { schema, root, ..self },
            Some(FactV::Node(node)) => StreamV { nodes: self.nodes.push(node), ..self },
            Some(FactV::Edge(edge)) => StreamV { edges: self.edges.push(edge), ..self },
            None => self,
        }
    }
}

/// The fact on a line.
pub open spec fn fact_on(line: Text) -> Option<FactV> {
    if text::trimmed(line).len() == 0 {
        None
    } else {
        match (json::json_read(line), said::heard(line)) {
            (Some(_), Some(j)) => wire::fact_read(j),
            _ => None,
        }
    }
}

fn read_line(line: &str) -> (fact: Option<Fact>)
    ensures
        fact.deep_view() == fact_on(line@),
{
    if text::to_chars(text::trim(line).as_str()).len() == 0 {
        return None;
    }
    match (Json::parse(line), said::read(line)) {
        (Some(_), Ok(j)) => wire::read_fact(&j),
        _ => None,
    }
}

/// What the first `n` lines say.
pub open spec fn lines_told(lines: Seq<Text>, n: nat) -> StreamV
    decreases n,
{
    if n == 0 {
        StreamV::empty()
    } else {
        lines_told(lines, (n - 1) as nat).told(fact_on(lines[n - 1]))
    }
}

/// What a text of one fact to a line says.
pub open spec fn stream_of(source: Text) -> StreamV {
    let lines = text::lines_of(source);
    lines_told(lines, lines.len())
}

/// What the first `n` facts say.
pub open spec fn facts_told(facts: Seq<FactV>, n: nat) -> StreamV
    decreases n,
{
    if n == 0 {
        StreamV::empty()
    } else {
        facts_told(facts, (n - 1) as nat).told(Some(facts[n - 1]))
    }
}

/// The nodes among the first `n` whose id no earlier one has.
pub open spec fn first_nodes(nodes: Seq<NodeV>, n: nat) -> Seq<NodeV>
    decreases n,
{
    if n == 0 {
        seq![]
    } else {
        let before = first_nodes(nodes, (n - 1) as nat);
        if node_ids(nodes, (n - 1) as nat).contains(nodes[n - 1].id) {
            before
        } else {
            before.push(nodes[n - 1])
        }
    }
}

/// The ids of the first `n` nodes.
pub open spec fn node_ids(nodes: Seq<NodeV>, n: nat) -> Set<Text>
    decreases n,
{
    if n == 0 {
        Set::empty()
    } else {
        node_ids(nodes, (n - 1) as nat).insert(nodes[n - 1].id)
    }
}

/// An edge written out whole, evidence and all. The same edge is always written
/// alike, so an edge whose text is new is new.
spec fn edge_text(edge: EdgeV) -> Text {
    json::json_written(
        json::json_stored(JsonV::Object(wire::edge_fields(Seq::empty(), edge))),
    )
}

/// The edges among the first `n` that no earlier one is the same as.
pub open spec fn first_edges(edges: Seq<EdgeV>, n: nat) -> Seq<EdgeV>
    decreases n,
{
    if n == 0 {
        seq![]
    } else {
        let before = first_edges(edges, (n - 1) as nat);
        if edges.take(n - 1).contains(edges[n - 1]) {
            before
        } else {
            before.push(edges[n - 1])
        }
    }
}

/// No two nodes have one id.
pub open spec fn ids_differ(nodes: Seq<NodeV>) -> bool {
    forall|i: int, j: int|
        0 <= i < j < nodes.len() ==> (#[trigger] nodes[i]).id != (#[trigger] nodes[j]).id
}

/// No two edges are the same.
pub open spec fn edges_differ(edges: Seq<EdgeV>) -> bool {
    forall|i: int, j: int|
        0 <= i < j < edges.len() ==> #[trigger] edges[i] != #[trigger] edges[j]
}

/// What is kept of a list of nodes has every id of it, and each once.
pub proof fn lemma_nodes_once(nodes: Seq<NodeV>, n: nat)
    requires
        n <= nodes.len(),
    ensures
        ids_differ(first_nodes(nodes, n)),
        forall|i: int|
            0 <= i < first_nodes(nodes, n).len() ==> node_ids(nodes, n).contains(
                (#[trigger] first_nodes(nodes, n)[i]).id,
            ),
        forall|k: int|
            0 <= k < n ==> exists|i: int|
                0 <= i < first_nodes(nodes, n).len() && (#[trigger] first_nodes(nodes, n)[i]).id
                    == (#[trigger] nodes[k]).id,
    decreases n,
{
    if n > 0 {
        lemma_nodes_once(nodes, (n - 1) as nat);
        let before = first_nodes(nodes, (n - 1) as nat);
        let after = first_nodes(nodes, n);
        let last = nodes[n - 1];
        assert forall|k: int| 0 <= k < n implies exists|i: int|
            0 <= i < after.len() && (#[trigger] after[i]).id == (#[trigger] nodes[k]).id by {
            if k == n - 1 && !node_ids(nodes, (n - 1) as nat).contains(last.id) {
                assert(after[before.len() as int].id == nodes[k].id);
            } else {
                let j = if k == n - 1 {
                    lemma_id_known(nodes, (n - 1) as nat, last.id)
                } else {
                    k
                };
                let i = choose|i: int|
                    0 <= i < before.len() && (#[trigger] before[i]).id == nodes[j].id;
                assert(after[i] == before[i]);
            }
        }
    }
}

/// What is kept of a list of edges has every edge of it, and each once.
pub proof fn lemma_edges_once(edges: Seq<EdgeV>, n: nat)
    requires
        n <= edges.len(),
    ensures
        edges_differ(first_edges(edges, n)),
        forall|e: EdgeV| #[trigger]
            first_edges(edges, n).contains(e) <==> edges.take(n as int).contains(e),
    decreases n,
{
    let after = first_edges(edges, n);
    let all = edges.take(n as int);
    if n == 0 {
        assert(all =~= seq![]);
    } else {
        lemma_edges_once(edges, (n - 1) as nat);
        let before = first_edges(edges, (n - 1) as nat);
        let last = edges[n - 1];
        let rest = edges.take(n - 1);
        assert(all =~= rest.push(last));
        assert forall|e: EdgeV| #[trigger] after.contains(e) <==> all.contains(e) by {
            assert(before.contains(e) <==> rest.contains(e));
            lemma_pushed(rest, last, e);
            lemma_pushed(before, last, e);
        }
        if !rest.contains(last) {
            assert(!before.contains(last));
        }
    }
}

proof fn lemma_pushed(edges: Seq<EdgeV>, last: EdgeV, e: EdgeV)
    ensures
        edges.push(last).contains(e) <==> edges.contains(e) || e == last,
{
    let all = edges.push(last);
    if edges.contains(e) {
        assert(all[edges.index_of(e)] == e);
    }
    if e == last {
        assert(all[edges.len() as int] == e);
    }
    if all.contains(e) && e != last {
        assert(edges[all.index_of(e)] == e);
    }
}

proof fn lemma_id_known(nodes: Seq<NodeV>, n: nat, id: Text) -> (k: int)
    requires
        n <= nodes.len(),
        node_ids(nodes, n).contains(id),
    ensures
        0 <= k < n,
        nodes[k].id == id,
    decreases n,
{
    if nodes[n - 1].id == id {
        n - 1
    } else {
        lemma_id_known(nodes, (n - 1) as nat, id)
    }
}

proof fn lemma_nodes_stay(nodes: Seq<NodeV>, n: nat)
    requires
        n <= nodes.len(),
        ids_differ(nodes),
    ensures
        first_nodes(nodes, n) == nodes.take(n as int),
    decreases n,
{
    if n == 0 {
        assert(nodes.take(0) =~= seq![]);
    } else {
        lemma_nodes_stay(nodes, (n - 1) as nat);
        let id = nodes[n - 1].id;
        if node_ids(nodes, (n - 1) as nat).contains(id) {
            let k = lemma_id_known(nodes, (n - 1) as nat, id);
            assert(nodes[k].id != nodes[n - 1].id);
        }
        assert(nodes.take(n - 1).push(nodes[n - 1]) =~= nodes.take(n as int));
    }
}

proof fn lemma_edges_stay(edges: Seq<EdgeV>, n: nat)
    requires
        n <= edges.len(),
        edges_differ(edges),
    ensures
        first_edges(edges, n) == edges.take(n as int),
    decreases n,
{
    if n == 0 {
        assert(edges.take(0) =~= seq![]);
    } else {
        lemma_edges_stay(edges, (n - 1) as nat);
        let rest = edges.take(n - 1);
        if rest.contains(edges[n - 1]) {
            let k = rest.index_of(edges[n - 1]);
            assert(edges[k] != edges[n - 1]);
        }
        assert(rest.push(edges[n - 1]) =~= edges.take(n as int));
    }
}

/// Dropping what was said twice, a second time, drops nothing.
pub proof fn lemma_dedupe_again(nodes: Seq<NodeV>, edges: Seq<EdgeV>)
    ensures
        ({
            let kept = first_nodes(nodes, nodes.len());
            first_nodes(kept, kept.len()) == kept
        }),
        ({
            let kept = first_edges(edges, edges.len());
            first_edges(kept, kept.len()) == kept
        }),
{
    let n = first_nodes(nodes, nodes.len());
    let e = first_edges(edges, edges.len());
    lemma_nodes_once(nodes, nodes.len());
    lemma_edges_once(edges, edges.len());
    lemma_nodes_stay(n, n.len());
    lemma_edges_stay(e, e.len());
    assert(n.take(n.len() as int) =~= n);
    assert(e.take(e.len() as int) =~= e);
}

impl Default for Stream {
    fn default() -> (stream: Stream)
        ensures
            stream.deep_view() == StreamV::empty(),
    {
        let stream = Stream {
            nodes: Vec::new(),
            edges: Vec::new(),
            schema: text::empty(),
            root: text::empty(),
        };
        assert(stream.nodes.deep_view() =~= seq![]);
        assert(stream.edges.deep_view() =~= seq![]);
        stream
    }
}

impl Stream {
    /// Reads a fact stream out of a text.
    pub fn from_ndjson(source: &str) -> (stream: Stream)
        ensures
            stream.deep_view() == stream_of(source@),
    {
        let mut nodes: Vec<Node> = Vec::new();
        let mut edges: Vec<Edge> = Vec::new();
        let mut schema = text::empty();
        let mut root = text::empty();
        let lines = text::lines(source);
        let ghost all = lines.deep_view();
        let mut i: usize = 0;
        assert(nodes.deep_view() =~= seq![]);
        assert(edges.deep_view() =~= seq![]);
        while i < lines.len()
            invariant
                i <= lines.len(),
                all == lines.deep_view(),
                lines_told(all, i as nat) == (StreamV {
                    nodes: nodes.deep_view(),
                    edges: edges.deep_view(),
                    schema: schema@,
                    root: root@,
                }),
            decreases lines.len() - i,
        {
            let fact = read_line(lines[i].as_str());
            match fact {
                Some(Fact::Header { schema: said, extractor: _, root: there }) => {
                    schema = said;
                    root = there;
                },
                Some(Fact::Node(node)) => text::push(&mut nodes, node),
                Some(Fact::Edge(edge)) => text::push(&mut edges, edge),
                None => {},
            }
            i += 1;
        }
        Stream { nodes, edges, schema, root }
    }

    /// Drops what more than one reader said: a node whose id came before, and
    /// an edge that came before, evidence, attributes and all.
    pub fn dedupe(&mut self)
        ensures
            final(self).nodes.deep_view() == first_nodes(
                old(self).nodes.deep_view(),
                old(self).nodes@.len(),
            ),
            final(self).edges.deep_view() == first_edges(
                old(self).edges.deep_view(),
                old(self).edges@.len(),
            ),
            final(self).schema@ == old(self).schema@,
            final(self).root@ == old(self).root@,
            edges_differ(final(self).edges.deep_view()),
            forall|e: EdgeV| #[trigger]
                old(self).edges.deep_view().contains(e) <==> final(self).edges.deep_view().contains(e),
    {
        let mut nodes: Vec<Node> = Vec::new();
        let mut ids = StringHashSet::new();
        let mut i: usize = 0;
        assert(nodes.deep_view() =~= seq![]);
        while i < self.nodes.len()
            invariant
                i <= self.nodes.len(),
                *self == *old(self),
                nodes.deep_view() == first_nodes(self.nodes.deep_view(), i as nat),
                ids@ == node_ids(self.nodes.deep_view(), i as nat),
            decreases self.nodes.len() - i,
        {
            if ids.insert(self.nodes[i].id.0.clone()) {
                text::push(&mut nodes, self.nodes[i].copy());
            }
            i += 1;
        }
        let mut edges: Vec<Edge> = Vec::new();
        let mut texts: StringHashMap<usize> = StringHashMap::new();
        let mut j: usize = 0;
        let ghost all = self.edges.deep_view();
        assert(edges.deep_view() =~= seq![]);
        while j < self.edges.len()
            invariant
                j <= self.edges.len(),
                *self == *old(self),
                all == self.edges.deep_view(),
                edges.deep_view() == first_edges(all, j as nat),
                forall|t: Text| #[trigger]
                    texts@.contains_key(t) ==> 0 <= texts@[t] < edges@.len(),
                forall|k: int| 0 <= k < j ==> texts@.contains_key(edge_text(#[trigger] all[k])),
            decreases self.edges.len() - j,
        {
            let edge = &self.edges[j];
            let ghost rest = all.take(j as int);
            let mut fields = json::no_fields();
            wire::add_edge(&mut fields, edge);
            assert(Seq::<(Text, JsonV)>::empty() =~= seq![]);
            let whole = Json::object(fields).write();
            assert(whole@ == edge_text(all[j as int]));
            proof {
                lemma_edges_once(all, j as nat);
            }
            let known = match texts.get(whole.as_str()) {
                Some(at) => {
                    if edges[*at].same(edge) {
                        assert(edges.deep_view()[*at as int] == all[j as int]);
                        true
                    } else {
                        listed(&edges, edge)
                    }
                },
                None => {
                    assert(!rest.contains(all[j as int])) by {
                        if rest.contains(all[j as int]) {
                            let k = rest.index_of(all[j as int]);
                            assert(all[k] == all[j as int]);
                        }
                    }
                    false
                },
            };
            assert(edges.deep_view().contains(all[j as int]) <==> rest.contains(all[j as int]));
            if !known {
                if !texts.contains_key(whole.as_str()) {
                    texts.insert(whole, edges.len());
                }
                text::push(&mut edges, edge.copy());
            }
            j += 1;
        }
        proof {
            lemma_edges_once(all, all.len());
            assert(all.take(all.len() as int) =~= all);
        }
        self.nodes = nodes;
        self.edges = edges;
    }
}

/// Whether an edge is one of some.
fn listed(edges: &Vec<Edge>, edge: &Edge) -> (r: bool)
    ensures
        r == edges.deep_view().contains(edge.deep_view()),
{
    let mut i: usize = 0;
    while i < edges.len()
        invariant
            i <= edges.len(),
            forall|k: int|
                0 <= k < i ==> #[trigger] edges.deep_view()[k] != edge.deep_view(),
        decreases edges.len() - i,
    {
        if edges[i].same(edge) {
            assert(edges.deep_view()[i as int] == edge.deep_view());
            return true;
        }
        i += 1;
    }
    false
}

// --- counting ----------------------------------------------------------------

/// A kind as a report names it: as the stream spells it, without the line
/// between its words.
pub open spec fn run_together(kind: Text) -> Text {
    text::replaced(kind, '_', seq![])
}

pub open spec fn node_kinds(nodes: Seq<NodeV>, n: nat) -> Seq<(Text, u64)>
    decreases n,
{
    if n == 0 {
        seq![]
    } else {
        table::with_one(
            node_kinds(nodes, (n - 1) as nat),
            run_together(nodes[n - 1].kind.spelled()),
        )
    }
}

pub open spec fn edge_kinds(edges: Seq<EdgeV>, n: nat) -> Seq<(Text, u64)>
    decreases n,
{
    if n == 0 {
        seq![]
    } else {
        table::with_one(
            edge_kinds(edges, (n - 1) as nat),
            run_together(edges[n - 1].kind.spelled()),
        )
    }
}

pub open spec fn kind_lines(out: Seq<Text>, head: Text, counts: Seq<(Text, u64)>, n: nat) -> Seq<Text>
    decreases n,
{
    if n == 0 {
        out
    } else {
        kind_lines(out, head, counts, (n - 1) as nat).push(
            head + text::left_in(counts[n - 1].0, 12) + " "@ + text::right_in(
                text::decimal_of(counts[n - 1].1 as nat),
                7,
            ),
        )
    }
}

fn list_kinds(out: &mut Vec<String>, head: &str, counts: &Table<u64>)
    ensures
        final(out).deep_view() == kind_lines(
            old(out).deep_view(),
            head@,
            counts.deep_view(),
            counts.deep_view().len(),
        ),
{
    let ghost start = out.deep_view();
    let end: usize = counts.len();
    let mut i: usize = 0;
    while i < end
        invariant
            i <= end == counts.deep_view().len(),
            out.deep_view() == kind_lines(start, head@, counts.deep_view(), i as nat),
        decreases end - i,
    {
        let count = text::decimal(*counts.value_at(i));
        text::push(
            out,
            text::cat4(
                head,
                text::left(counts.name_at(i).as_str(), 12).as_str(),
                " ",
                text::right(count.as_str(), 7).as_str(),
            ),
        );
        i += 1;
    }
}

/// What a stream holds, kind by kind.
pub open spec fn report_lines(s: StreamV) -> Seq<Text> {
    let nodes = node_kinds(s.nodes, s.nodes.len());
    let edges = edge_kinds(s.edges, s.edges.len());
    let head = seq!["schema "@ + s.schema + " · "@ + s.root].push(
        text::decimal_of(s.nodes.len()) + " nodes, "@ + text::decimal_of(s.edges.len())
            + " edges"@,
    );
    kind_lines(kind_lines(head, "  node "@, nodes, nodes.len()), "  edge "@, edges, edges.len())
}

impl Stream {
    pub fn report(&self) -> (out: Vec<String>)
        ensures
            out.deep_view() == report_lines(self.deep_view()),
    {
        let none = text::empty();
        let mut nodes: Table<u64> = Table::new();
        let mut i: usize = 0;
        while i < self.nodes.len()
            invariant
                i <= self.nodes.len(),
                none@ == Seq::<char>::empty(),
                nodes.deep_view() == node_kinds(self.nodes.deep_view(), i as nat),
            decreases self.nodes.len() - i,
        {
            assert(self.nodes.deep_view()[i as int] == self.nodes@[i as int].deep_view());
            let kind = text::replace(self.nodes[i].kind.name(), '_', none.as_str());
            table::count_one(&mut nodes, kind.as_str());
            i += 1;
        }
        let mut edges: Table<u64> = Table::new();
        let mut j: usize = 0;
        while j < self.edges.len()
            invariant
                j <= self.edges.len(),
                none@ == Seq::<char>::empty(),
                edges.deep_view() == edge_kinds(self.edges.deep_view(), j as nat),
            decreases self.edges.len() - j,
        {
            assert(self.edges.deep_view()[j as int] == self.edges@[j as int].deep_view());
            let kind = text::replace(self.edges[j].kind.name(), '_', none.as_str());
            table::count_one(&mut edges, kind.as_str());
            j += 1;
        }
        let mut out: Vec<String> = Vec::new();
        text::push(
            &mut out,
            text::cat4("schema ", self.schema.as_str(), " · ", self.root.as_str()),
        );
        text::push(
            &mut out,
            text::cat4(
                text::decimal(self.nodes.len() as u64).as_str(),
                " nodes, ",
                text::decimal(self.edges.len() as u64).as_str(),
                " edges",
            ),
        );
        assert(out.deep_view() =~= seq![
            "schema "@ + self.schema@ + " · "@ + self.root@,
        ].push(
            text::decimal_of(self.nodes@.len()) + " nodes, "@ + text::decimal_of(
                self.edges@.len(),
            ) + " edges"@,
        ));
        list_kinds(&mut out, "  node ", &nodes);
        list_kinds(&mut out, "  edge ", &edges);
        out
    }
}

// --- what a stream holds -----------------------------------------------------

/// A kind is counted as often as the stream has a node, or an edge, of it.
pub proof fn lemma_kinds_counted(nodes: Seq<NodeV>, edges: Seq<EdgeV>, kind: Text, n: nat, m: nat)
    requires
        n <= nodes.len() <= u64::MAX,
        m <= edges.len() <= u64::MAX,
    ensures
        table::tally_at(node_kinds(nodes, n), kind) == nodes.take(n as int).filter(
            |x: NodeV| x.kind.spelled().filter(|c: char| c != '_') == kind,
        ).len(),
        table::tally_at(edge_kinds(edges, m), kind) == edges.take(m as int).filter(
            |x: EdgeV| x.kind.spelled().filter(|c: char| c != '_') == kind,
        ).len(),
    decreases n + m,
{
    reveal(Seq::filter);
    let of = |x: NodeV| x.kind.spelled().filter(|c: char| c != '_') == kind;
    let is = |x: EdgeV| x.kind.spelled().filter(|c: char| c != '_') == kind;
    if n > 0 {
        lemma_kinds_counted(nodes, edges, kind, (n - 1) as nat, m);
        let before = node_kinds(nodes, (n - 1) as nat);
        let name = run_together(nodes[n - 1].kind.spelled());
        text::lemma_without(nodes[n - 1].kind.spelled(), '_');
        table::lemma_put_lookup(before, name, table::more(table::tally_at(before, name), 1), kind);
        assert(nodes.take(n as int).drop_last() =~= nodes.take(n - 1));
        assert(nodes.take(n as int).last() == nodes[n - 1]);
        nodes.take(n - 1).lemma_filter_len(of);
    } else if m > 0 {
        lemma_kinds_counted(nodes, edges, kind, n, (m - 1) as nat);
        let before = edge_kinds(edges, (m - 1) as nat);
        let name = run_together(edges[m - 1].kind.spelled());
        text::lemma_without(edges[m - 1].kind.spelled(), '_');
        table::lemma_put_lookup(before, name, table::more(table::tally_at(before, name), 1), kind);
        assert(edges.take(m as int).drop_last() =~= edges.take(m - 1));
        assert(edges.take(m as int).last() == edges[m - 1]);
        edges.take(m - 1).lemma_filter_len(is);
    }
}

/// Facts are told into the stream in their order: its nodes are the nodes among
/// them, its edges the edges, and its root the last header's.
pub proof fn lemma_facts_told(facts: Seq<FactV>, n: nat)
    requires
        n <= facts.len(),
    ensures
        facts_told(facts, n).nodes == facts.take(n as int).filter(
            |f: FactV| f is Node,
        ).map_values(|f: FactV| f->Node_0),
        facts_told(facts, n).edges == facts.take(n as int).filter(
            |f: FactV| f is Edge,
        ).map_values(|f: FactV| f->Edge_0),
        forall|k: int|
            0 <= k < n && (#[trigger] facts[k]) is Header && (forall|j: int|
                k < j < n ==> !((#[trigger] facts[j]) is Header)) ==> facts_told(facts, n).root
                == facts[k]->root && facts_told(facts, n).schema == facts[k]->schema,
    decreases n,
{
    reveal(Seq::filter);
    let is_node = |f: FactV| f is Node;
    let is_edge = |f: FactV| f is Edge;
    let node = |f: FactV| f->Node_0;
    let edge = |f: FactV| f->Edge_0;
    let all = facts.take(n as int);
    if n > 0 {
        lemma_facts_told(facts, (n - 1) as nat);
        let front = facts.take(n - 1);
        let last = facts[n - 1];
        assert(all.drop_last() =~= front);
        assert(all.last() == last);
        if last is Node {
            assert(front.filter(is_node).push(last).map_values(node) =~= front.filter(
                is_node,
            ).map_values(node).push(node(last)));
        }
        if last is Edge {
            assert(front.filter(is_edge).push(last).map_values(edge) =~= front.filter(
                is_edge,
            ).map_values(edge).push(edge(last)));
        }
    } else {
        assert(all.filter(is_node).map_values(node) =~= seq![]);
        assert(all.filter(is_edge).map_values(edge) =~= seq![]);
    }
}

}
