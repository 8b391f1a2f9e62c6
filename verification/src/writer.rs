//! Writing facts, one to a line.

use vstd::hash_set::StringHashSet;
use vstd::prelude::*;
use vstd::string::StringExecFns;

use crate::facts;
use crate::json::{self, JsonV};
use crate::schema::{Edge, EdgeV, Fact, FactV, Node, NodeV};
use crate::text::{self, Text};
use crate::wire;

verus! {

/// What a writer has been given: the facts that reached the stream, the ids of
/// the nodes it let through, and how many nodes and edges those were.
pub struct LogV {
    pub facts: Seq<FactV>,
    pub seen: Set<Text>,
    pub nodes: nat,
    pub edges: nat,
}

impl LogV {
    pub open spec fn empty() -> LogV {
        LogV { facts: seq![], seen: Set::empty(), nodes: 0, edges: 0 }
    }

    pub open spec fn fact(self, fact: FactV) -> LogV {
        LogV { facts: self.facts.push(fact), ..self }
    }

    /// A node reaches the stream the first time its id is given.
    pub open spec fn node(self, node: NodeV) -> LogV {
        if self.seen.contains(node.id) {
            self
        } else {
            LogV {
                facts: self.facts.push(FactV::Node(node)),
                seen: self.seen.insert(node.id),
                nodes: self.nodes + 1,
                edges: self.edges,
            }
        }
    }

    pub open spec fn edge(self, edge: EdgeV) -> LogV {
        LogV { facts: self.facts.push(FactV::Edge(edge)), edges: self.edges + 1, ..self }
    }

    /// No node stands in the stream twice, and every node there is counted.
    pub open spec fn sound(self) -> bool {
        &&& forall|i: int, j: int|
            0 <= i < j < self.facts.len() && self.facts[i] is Node && self.facts[j] is Node
                ==> (#[trigger] self.facts[i])->Node_0.id != (#[trigger] self.facts[j])->Node_0.id
        &&& forall|i: int|
            0 <= i < self.facts.len() && self.facts[i] is Node ==> self.seen.contains(
                (#[trigger] self.facts[i])->Node_0.id,
            )
        &&& self.nodes == count_nodes(self.facts, self.facts.len())
        &&& self.edges == count_edges(self.facts, self.facts.len())
    }
}

pub open spec fn count_nodes(facts: Seq<FactV>, n: nat) -> nat
    decreases n,
{
    if n == 0 {
        0
    } else {
        count_nodes(facts, (n - 1) as nat) + if facts[n - 1] is Node {
            1nat
        } else {
            0nat
        }
    }
}

pub open spec fn count_edges(facts: Seq<FactV>, n: nat) -> nat
    decreases n,
{
    if n == 0 {
        0
    } else {
        count_edges(facts, (n - 1) as nat) + if facts[n - 1] is Edge {
            1nat
        } else {
            0nat
        }
    }
}

proof fn lemma_count_prefix(a: Seq<FactV>, b: Seq<FactV>, n: nat)
    requires
        n <= a.len() <= b.len(),
        forall|i: int| 0 <= i < n ==> a[i] == b[i],
    ensures
        count_nodes(a, n) == count_nodes(b, n),
        count_edges(a, n) == count_edges(b, n),
    decreases n,
{
    if n > 0 {
        lemma_count_prefix(a, b, (n - 1) as nat);
    }
}

/// However a stream is written by nodes, edges and headers, no node is in it
/// twice and the two counts are those of the stream.
pub proof fn lemma_sound(log: LogV, node: NodeV, edge: EdgeV, header: FactV)
    requires
        log.sound(),
        header is Header,
    ensures
        LogV::empty().sound(),
        log.node(node).sound(),
        log.edge(edge).sound(),
        log.fact(header).sound(),
{
    lemma_count_prefix(log.facts, log.node(node).facts, log.facts.len());
    lemma_count_prefix(log.facts, log.edge(edge).facts, log.facts.len());
    lemma_count_prefix(log.facts, log.fact(header).facts, log.facts.len());
}

/// A node given again changes nothing.
pub proof fn lemma_node_again(log: LogV, node: NodeV, other: NodeV)
    requires
        node.id == other.id,
    ensures
        log.node(node).node(other) == log.node(node),
{
}

/// The line a fact is written on.
pub open spec fn line_of(fact: FactV) -> Text {
    json::json_written(json::json_stored(JsonV::Object(wire::fact_fields(fact))))
}

pub open spec fn lines_for(facts: Seq<FactV>) -> Seq<Text> {
    Seq::new(facts.len(), |i: int| line_of(facts[i]))
}

/// Lines, each with the line feed that ends it.
pub open spec fn ended(lines: Seq<Text>) -> Text
    decreases lines.len(),
{
    if lines.len() == 0 {
        seq![]
    } else {
        lines[0] + seq!['\n'] + ended(lines.skip(1))
    }
}

spec fn unbroken(line: Text) -> bool {
    forall|i: int| 0 <= i < line.len() ==> line[i] != '\n' && line[i] != '\r'
}

proof fn lemma_ended(lines: Seq<Text>)
    requires
        forall|i: int| 0 <= i < lines.len() ==> unbroken(#[trigger] lines[i]),
    ensures
        text::lines_of(ended(lines)) == lines,
    decreases lines.len(),
{
    if lines.len() == 0 {
        assert(text::lines_of(ended(lines)) =~= lines);
    } else {
        let line = lines[0];
        let rest = ended(lines.skip(1));
        let all = ended(lines);
        let mark = seq!['\n'];
        assert forall|i: int| 0 <= i < lines.skip(1).len() implies unbroken(
            #[trigger] lines.skip(1)[i],
        ) by {
            assert(lines.skip(1)[i] == lines[i + 1]);
        }
        lemma_ended(lines.skip(1));
        text::lemma_find_from(all, mark, 0);
        assert(unbroken(line));
        assert(all.subrange(line.len() as int, line.len() as int + 1) =~= mark);
        assert(text::occurs_at(all, mark, line.len() as int));
        assert forall|j: int| 0 <= j < line.len() implies !text::occurs_at(all, mark, j) by {
            if text::occurs_at(all, mark, j) {
                assert(all.subrange(j, j + 1)[0] == '\n');
                assert(all[j] == line[j]);
            }
        }
        assert(text::find(all, mark) == Some(line.len() as int));
        assert(all.take(line.len() as int) =~= line);
        assert(all.skip(line.len() as int + 1) =~= rest);
        assert(text::chomp(line) == line);
        assert(seq![line] + lines.skip(1) =~= lines);
    }
}

struct Log {
    lines: Vec<String>,
    seen: StringHashSet,
    nodes: usize,
    edges: usize,
    facts: Ghost<Seq<FactV>>,
}

/// A line that reads as the fact it was written for.
spec fn reads_as(line: Text, fact: FactV) -> bool {
    &&& unbroken(line)
    &&& wire::fact_plain(fact) ==> facts::fact_on(line) == Some(fact)
}

proof fn lemma_not_blank(line: Text)
    requires
        line.len() > 0,
        !text::is_space(line[0]),
    ensures
        text::trimmed(line).len() > 0,
    decreases line.len(),
{
    if line.len() > 1 && text::is_space(line.last()) {
        lemma_not_blank(line.drop_last());
    }
}

impl Log {
    spec fn log(self) -> LogV {
        LogV {
            facts: self.facts@,
            seen: self.seen@,
            nodes: self.nodes as nat,
            edges: self.edges as nat,
        }
    }

    spec fn wf(self) -> bool {
        &&& self.lines.deep_view() == lines_for(self.facts@)
        &&& forall|i: int|
            0 <= i < self.facts@.len() ==> reads_as(self.lines@[i]@, #[trigger] self.facts@[i])
        &&& self.nodes + self.edges <= self.lines@.len()
    }

    fn new() -> (log: Log)
        ensures
            log.wf(),
            log.log() == LogV::empty(),
    {
        let log = Log {
            lines: Vec::new(),
            seen: StringHashSet::new(),
            nodes: 0,
            edges: 0,
            facts: Ghost(Seq::empty()),
        };
        assert(log.lines.deep_view() =~= lines_for(log.facts@));
        log
    }

    fn fact(&mut self, fact: &Fact)
        requires
            old(self).wf(),
        ensures
            final(self).wf(),
            final(self).log() == old(self).log().fact(fact.deep_view()),
            final(self).nodes + final(self).edges < final(self).lines@.len(),
    {
        let object = wire::write_fact(fact);
        let line = object.write();
        proof {
            let f = fact.deep_view();
            let o = object.deep_view();
            if wire::fact_plain(f) {
                wire::lemma_fact_plain(f);
                wire::lemma_fact_kept(f);
                lemma_not_blank(line@);
            }
            assert(reads_as(line@, f));
        }
        let ghost before = self.lines.deep_view();
        text::push(&mut self.lines, line);
        self.facts = Ghost(self.facts@.push(fact.deep_view()));
        assert(self.lines.deep_view() =~= lines_for(self.facts@));
        assert(self.lines@.len() == self.facts@.len());
        assert forall|i: int| 0 <= i < self.facts@.len() implies reads_as(
            self.lines@[i]@,
            #[trigger] self.facts@[i],
        ) by {
            assert(self.lines.deep_view()[i] == self.lines@[i]@);
            if i < before.len() {
                assert(before[i] == old(self).lines@[i]@);
                assert(reads_as(old(self).lines@[i]@, old(self).facts@[i]));
            }
        }
    }
}

/// Writes facts one to a line, letting each node through once, so that a
/// containing node can be given every time it is needed.
pub struct Writer {
    log: Log,
}

impl Writer {
    #[verifier::type_invariant]
    spec fn wf(self) -> bool {
        self.log.wf()
    }
}

impl View for Writer {
    type V = LogV;

    closed spec fn view(&self) -> LogV {
        self.log.log()
    }
}

impl Writer {
    pub fn new() -> (out: Writer)
        ensures
            out@ == LogV::empty(),
    {
        Writer { log: Log::new() }
    }

    pub fn fact(&mut self, fact: &Fact)
        ensures
            final(self)@ == old(self)@.fact(fact.deep_view()),
    {
        proof {
            use_type_invariant(&*self);
        }
        let mut log = Log::new();
        std::mem::swap(&mut self.log, &mut log);
        log.fact(fact);
        self.log = log;
    }

    pub fn node(&mut self, node: Node)
        ensures
            final(self)@ == old(self)@.node(node.deep_view()),
    {
        proof {
            use_type_invariant(&*self);
        }
        let mut log = Log::new();
        std::mem::swap(&mut self.log, &mut log);
        if log.seen.insert(node.id.0.clone()) {
            log.fact(&Fact::Node(node));
            let held: usize = log.lines.len();
            assert(log.nodes < held);
            log.nodes = log.nodes + 1;
        } else {
            assert(log.seen@ =~= old(self).log.seen@);
        }
        self.log = log;
    }

    pub fn edge(&mut self, edge: Edge)
        ensures
            final(self)@ == old(self)@.edge(edge.deep_view()),
    {
        proof {
            use_type_invariant(&*self);
        }
        let mut log = Log::new();
        std::mem::swap(&mut self.log, &mut log);
        log.fact(&Fact::Edge(edge));
        let held: usize = log.lines.len();
        assert(log.edges < held);
        log.edges = log.edges + 1;
        self.log = log;
    }

    /// How many nodes reached the stream.
    pub fn nodes(&self) -> (n: usize)
        ensures
            n == self@.nodes,
    {
        self.log.nodes
    }

    /// How many edges reached the stream.
    pub fn edges(&self) -> (n: usize)
        ensures
            n == self@.edges,
    {
        self.log.edges
    }

    /// The stream. Where every attribute is a plain value, reading it back
    /// says exactly the facts that were written.
    pub fn text(&self) -> (out: String)
        ensures
            out@ == ended(lines_for(self@.facts)),
            (forall|i: int| 0 <= i < self@.facts.len() ==> wire::fact_plain(#[trigger] self@.facts[i]))
                ==> facts::stream_of(out@) == facts::facts_told(self@.facts, self@.facts.len()),
    {
        proof {
            use_type_invariant(&*self);
        }
        let lines = &self.log.lines;
        let ghost all = lines.deep_view();
        let mut out = text::empty();
        let mut i: usize = 0;
        assert(all.skip(0) =~= all);
        assert(out@ + ended(all) =~= ended(all));
        while i < lines.len()
            invariant
                i <= lines.len(),
                all == lines.deep_view(),
                out@ + ended(all.skip(i as int)) == ended(all),
            decreases lines.len() - i,
        {
            let ghost before = out@;
            out.append(lines[i].as_str());
            out.append("\n");
            proof {
                reveal_strlit("\n");
                assert("\n"@ =~= seq!['\n']);
                assert(all.skip(i as int).skip(1) =~= all.skip(i + 1));
                assert(all.skip(i as int)[0] == lines@[i as int]@);
                assert(out@ + ended(all.skip(i + 1)) =~= before + ended(all.skip(i as int)));
            }
            i += 1;
        }
        assert(out@ + ended(all.skip(i as int)) =~= out@);
        proof {
            let f = self.log.facts@;
            assert forall|i: int| 0 <= i < all.len() implies unbroken(#[trigger] all[i]) by {
                assert(reads_as(lines@[i]@, f[i]));
            }
            lemma_ended(all);
            if forall|i: int| 0 <= i < f.len() ==> wire::fact_plain(#[trigger] f[i]) {
                assert forall|i: int| 0 <= i < f.len() implies facts::fact_on(#[trigger] all[i])
                    == Some(f[i]) by {
                    assert(reads_as(lines@[i]@, f[i]));
                }
                lemma_told(all, f, f.len());
            }
        }
        out
    }
}

proof fn lemma_told(lines: Seq<Text>, facts: Seq<FactV>, n: nat)
    requires
        n <= facts.len() == lines.len(),
        forall|i: int| 0 <= i < facts.len() ==> facts::fact_on(#[trigger] lines[i]) == Some(facts[i]),
    ensures
        facts::lines_told(lines, n) == facts::facts_told(facts, n),
    decreases n,
{
    if n > 0 {
        lemma_told(lines, facts, (n - 1) as nat);
    }
}

}
