//! How a stream hangs together.
//!
//! An edge whose end has no node is dropped without a word by whatever loads
//! the stream, so none is written: both ends of every edge are nodes of it.
//! And all that stands anywhere, from the package down to the symbol, stands
//! on one spine: what holds it came before it.

use vstd::prelude::*;

use crate::extract;
use crate::facts;
use crate::json::JsonV;
use crate::manifest::{PackageV, TargetV};
use crate::prepass::{FactsV, ParsedV};
use crate::query;
use crate::schema::{self, EdgeKind, EdgeV, EvidenceV, FactV, NodeKind, NodeV};
use crate::syntax::{
    self, Arg, Attr, BindingV, Expression, Field, Form, Function, Input, Part, Place, Prototype, Extent,
    Tree, TypeRef, Variant,
};
use crate::table;
use crate::text::{self, Text};
use crate::vfs::VfsV;
use crate::visit::{self, SiteV, State};
use crate::wire;
use crate::writer::{self, LogV};
use crate::written::{self, Reader};

verus! {

/// Whether a node of an id is among facts.
pub open spec fn declared(facts: Seq<FactV>, id: Text) -> bool {
    exists|i: int|
        0 <= i < facts.len() && (#[trigger] facts[i]) is Node && facts[i]->Node_0.id == id
}

/// Whether both ends of every edge among facts are nodes among them.
pub open spec fn anchored(facts: Seq<FactV>) -> bool {
    forall|i: int|
        0 <= i < facts.len() && (#[trigger] facts[i]) is Edge ==> declared(
            facts,
            facts[i]->Edge_0.from,
        ) && declared(facts, facts[i]->Edge_0.to)
}

/// Whether a kind has its place on the spine.
pub open spec fn spinal(kind: NodeKind) -> bool {
    ||| kind == NodeKind::Package
    ||| kind == NodeKind::Binary
    ||| kind == NodeKind::Directory
    ||| kind == NodeKind::File
    ||| kind == NodeKind::Symbol
}

/// Whether a node of an id is among facts and has its place on the spine.
pub open spec fn stands(facts: Seq<FactV>, id: Text) -> bool {
    exists|i: int|
        0 <= i < facts.len() && (#[trigger] facts[i]) is Node && facts[i]->Node_0.id == id
            && spinal(facts[i]->Node_0.kind)
}

/// Whether an edge that places a node says that something which stands among
/// earlier facts contains it.
pub open spec fn places(e: EdgeV, id: Text, earlier: Seq<FactV>) -> bool {
    e.kind == EdgeKind::Contains && e.to == id && stands(earlier, e.from)
}

/// Whether everything on the spine but a package is contained in something on
/// it that was said before.
pub open spec fn joined(facts: Seq<FactV>) -> bool {
    forall|i: int|
        0 <= i < facts.len() && (#[trigger] facts[i]) is Node && spinal(facts[i]->Node_0.kind)
            && facts[i]->Node_0.kind != NodeKind::Package ==> placed(facts, i)
}

pub open spec fn placed(facts: Seq<FactV>, i: int) -> bool {
    exists|j: int|
        0 <= j < facts.len() && (#[trigger] facts[j]) is Edge && places(
            facts[j]->Edge_0,
            facts[i]->Node_0.id,
            facts.take(i),
        )
}

/// Whether an id is that of something on the spine.
spec fn upright(id: Text) -> bool {
    ||| text::has_prefix(id, "pkg:"@)
    ||| text::has_prefix(id, "bin:"@)
    ||| text::has_prefix(id, "dir:"@)
    ||| text::has_prefix(id, "file:"@)
    ||| text::has_prefix(id, "sym:"@)
}

spec fn begins(head: Text, id: Text) -> bool {
    text::has_prefix(id, head)
}

proof fn lemma_begins(head: Text, rest: Text)
    ensures
        begins(head, head + rest),
{
    assert((head + rest).subrange(0, head.len() as int) =~= head);
}

/// What begins in another way is not on the spine.
proof fn lemma_aside(id: Text)
    requires
        begins("type:"@, id) || begins("cap:"@, id) || begins("ext:"@, id) || begins("proc:"@, id)
            || begins("env:"@, id),
    ensures
        !upright(id),
{
    reveal_strlit("pkg:");
    reveal_strlit("bin:");
    reveal_strlit("dir:");
    reveal_strlit("file:");
    reveal_strlit("sym:");
    reveal_strlit("type:");
    reveal_strlit("cap:");
    reveal_strlit("ext:");
    reveal_strlit("proc:");
    reveal_strlit("env:");
    let said = id.subrange(0, 4);
    assert(forall|part: Text|
        #![trigger text::has_prefix(id, part)]
        text::has_prefix(id, part) && part.len() >= 4 ==> id.len() >= 4 && part[0] == id[0]
            && part[1] == id[1] && part[2] == id[2]) by {
        assert forall|part: Text|
            #![trigger text::has_prefix(id, part)]
            text::has_prefix(id, part) && part.len() >= 4 implies id.len() >= 4 && part[0]
            == id[0] && part[1] == id[1] && part[2] == id[2] by {
            let head = id.subrange(0, part.len() as int);
            assert(head[0] == id[0] && head[1] == id[1] && head[2] == id[2]);
        }
    }
}

broadcast use wire::lemma_neat;

/// Whether a node can be written on its own: it is a package, or not on the
/// spine.
spec fn alone(node: NodeV) -> bool {
    node.kind == NodeKind::Package || !spinal(node.kind) && !upright(node.id)
}

spec fn ends_in(e: EdgeV, ids: Set<Text>) -> bool {
    ids.contains(e.from) && ids.contains(e.to)
}

/// Whether every id that was let through is a node, and both ends of every
/// edge were let through or are promised to be; and whether what is on the
/// spine is told by its id, and joined to it.
spec fn held(log: LogV, promised: Set<Text>) -> bool {
    &&& joined(log.facts)
    &&& forall|i: int| 0 <= i < log.facts.len() ==> wire::tidy(#[trigger] log.facts[i])
    &&& forall|i: int|
        0 <= i < log.facts.len() && (#[trigger] log.facts[i]) is Node && upright(
            log.facts[i]->Node_0.id,
        ) ==> spinal(log.facts[i]->Node_0.kind)
    &&& forall|id: Text| #[trigger] log.seen.contains(id) ==> declared(log.facts, id)
    &&& forall|i: int|
        0 <= i < log.facts.len() && log.facts[i] is Edge ==> ends_in(
            (#[trigger] log.facts[i])->Edge_0,
            log.seen.union(promised),
        )
}

/// One fact more takes no node away.
proof fn lemma_declared(facts: Seq<FactV>, fact: FactV, id: Text)
    ensures
        declared(facts, id) ==> declared(facts.push(fact), id),
        fact is Node && fact->Node_0.id == id ==> declared(facts.push(fact), id),
{
    let more = facts.push(fact);
    if declared(facts, id) {
        let i = choose|i: int|
            0 <= i < facts.len() && (#[trigger] facts[i]) is Node && facts[i]->Node_0.id == id;
        assert(more[i] == facts[i]);
    }
    assert(more[facts.len() as int] == fact);
}

/// Whether a stream begins with its header and has no other, has no node twice,
/// and counts what is in it.
pub open spec fn begun(log: LogV) -> bool {
    &&& log.sound()
    &&& log.facts.len() > 0
    &&& log.facts[0] is Header
    &&& forall|i: int| 0 < i < log.facts.len() ==> !((#[trigger] log.facts[i]) is Header)
}

/// Nodes and edges leave a stream begun as it was.
proof fn lemma_begun(log: LogV, node: NodeV, edge: EdgeV)
    ensures
        begun(log) ==> begun(log.node(node)) && log.node(node).facts[0] == log.facts[0],
        begun(log) ==> begun(log.edge(edge)) && log.edge(edge).facts[0] == log.facts[0],
{
    if begun(log) {
        writer::lemma_sound(log, node, edge, log.facts[0]);
    }
}

/// A stream that goes on from another: it begins with the same header, it has
/// every node that one had, and its edges lead somewhere where those did.
#[verifier::opaque]
spec fn goes_on(a: LogV, b: LogV, promised: Set<Text>) -> bool {
    &&& begun(a) ==> begun(b) && b.facts[0] == a.facts[0]
    &&& a.seen.subset_of(b.seen)
    &&& held(a, promised) ==> held(b, promised)
}

/// A fact that is no node on the spine leaves it joined.
proof fn lemma_joined(facts: Seq<FactV>, fact: FactV)
    requires
        joined(facts),
        fact is Node ==> !spinal(fact->Node_0.kind) || fact->Node_0.kind == NodeKind::Package,
    ensures
        joined(facts.push(fact)),
{
    let more = facts.push(fact);
    assert forall|i: int|
        0 <= i < more.len() && (#[trigger] more[i]) is Node && spinal(more[i]->Node_0.kind)
            && more[i]->Node_0.kind != NodeKind::Package implies placed(more, i) by {
        assert(more[i] == facts[i]);
        assert(placed(facts, i));
        let j = choose|j: int|
            0 <= j < facts.len() && (#[trigger] facts[j]) is Edge && places(
                facts[j]->Edge_0,
                facts[i]->Node_0.id,
                facts.take(i),
            );
        assert(more[j] == facts[j]);
        assert(more.take(i) =~= facts.take(i));
    }
}

/// A node on the spine and the edge that places it leave it joined.
proof fn lemma_joins(facts: Seq<FactV>, node: NodeV, edge: EdgeV)
    requires
        joined(facts),
        places(edge, node.id, facts),
    ensures
        joined(facts.push(FactV::Node(node)).push(FactV::Edge(edge))),
{
    let more = facts.push(FactV::Node(node)).push(FactV::Edge(edge));
    assert forall|i: int|
        0 <= i < more.len() && (#[trigger] more[i]) is Node && spinal(more[i]->Node_0.kind)
            && more[i]->Node_0.kind != NodeKind::Package implies placed(more, i) by {
        assert(more.take(i) =~= facts.take(i));
        if i < facts.len() {
            assert(more[i] == facts[i]);
            assert(placed(facts, i));
            let j = choose|j: int|
                0 <= j < facts.len() && (#[trigger] facts[j]) is Edge && places(
                    facts[j]->Edge_0,
                    facts[i]->Node_0.id,
                    facts.take(i),
                );
            assert(more[j] == facts[j]);
        } else {
            assert(facts.take(i) =~= facts);
            assert(more[i + 1] == FactV::Edge(edge));
        }
    }
}

proof fn lemma_node(a: LogV, node: NodeV, promised: Set<Text>)
    requires
        alone(node),
        wire::neat(node.attrs),
    ensures
        goes_on(a, a.node(node), promised),
        a.node(node).seen.contains(node.id),
{
    reveal(goes_on);
    lemma_begun(a, node, arbitrary());
    let b = a.node(node);
    if held(a, promised) && !a.seen.contains(node.id) {
        lemma_joined(a.facts, FactV::Node(node));
        assert forall|i: int| 0 <= i < b.facts.len() && b.facts[i] is Edge implies ends_in(
            (#[trigger] b.facts[i])->Edge_0,
            b.seen.union(promised),
        ) by {
            assert(b.facts[i] == a.facts[i]);
        }
        assert forall|id: Text| #[trigger] b.seen.contains(id) implies declared(b.facts, id) by {
            lemma_declared(a.facts, FactV::Node(node), id);
        }
    }
}

proof fn lemma_edge(a: LogV, edge: EdgeV, promised: Set<Text>)
    requires
        ends_in(edge, a.seen.union(promised)),
        wire::neat(edge.attrs),
    ensures
        goes_on(a, a.edge(edge), promised),
{
    reveal(goes_on);
    lemma_begun(a, arbitrary(), edge);
    let b = a.edge(edge);
    if held(a, promised) {
        lemma_joined(a.facts, FactV::Edge(edge));
        assert forall|i: int| 0 <= i < b.facts.len() && b.facts[i] is Edge implies ends_in(
            (#[trigger] b.facts[i])->Edge_0,
            b.seen.union(promised),
        ) by {
            if i < a.facts.len() {
                assert(b.facts[i] == a.facts[i]);
            }
        }
        assert forall|id: Text| #[trigger] b.seen.contains(id) implies declared(b.facts, id) by {
            lemma_declared(a.facts, FactV::Edge(edge), id);
        }
    }
}

proof fn lemma_same(a: LogV, promised: Set<Text>)
    ensures
        goes_on(a, a, promised),
{
    reveal(goes_on);
}

proof fn lemma_then(a: LogV, b: LogV, c: LogV, promised: Set<Text>)
    requires
        goes_on(a, b, promised),
        goes_on(b, c, promised),
    ensures
        goes_on(a, c, promised),
{
    reveal(goes_on);
}

/// A node that was there is there.
proof fn lemma_keeps(a: LogV, b: LogV, promised: Set<Text>, id: Text)
    requires
        goes_on(a, b, promised),
        a.seen.contains(id),
    ensures
        b.seen.contains(id),
{
    reveal(goes_on);
}

/// A node and then an edge.
proof fn lemma_node_edge(a: LogV, node: NodeV, edge: EdgeV, promised: Set<Text>)
    requires
        alone(node),
        ends_in(edge, a.seen.insert(node.id).union(promised)),
        wire::neat(node.attrs),
        wire::neat(edge.attrs),
    ensures
        goes_on(a, a.node(node).edge(edge), promised),
        a.node(node).edge(edge).seen.contains(node.id),
{
    lemma_node(a, node, promised);
    assert(a.node(node).seen =~= a.seen.insert(node.id));
    lemma_edge(a.node(node), edge, promised);
    lemma_then(a, a.node(node), a.node(node).edge(edge), promised);
}

/// A node on the spine, and the edge that places it.
proof fn lemma_place(a: LogV, node: NodeV, edge: EdgeV, promised: Set<Text>)
    requires
        spinal(node.kind),
        edge.kind == EdgeKind::Contains,
        edge.to == node.id,
        a.seen.contains(edge.from),
        upright(edge.from),
        wire::neat(node.attrs),
        wire::neat(edge.attrs),
    ensures
        goes_on(a, a.node(node).edge(edge), promised),
        a.node(node).edge(edge).seen.contains(node.id),
{
    let b = a.node(node).edge(edge);
    if a.seen.contains(node.id) {
        lemma_edge(a, edge, promised);
    } else {
        reveal(goes_on);
        lemma_begun(a, node, edge);
        lemma_begun(a.node(node), node, edge);
        if held(a, promised) {
            assert(declared(a.facts, edge.from));
            let k = choose|i: int|
                0 <= i < a.facts.len() && (#[trigger] a.facts[i]) is Node && a.facts[i]->Node_0.id
                    == edge.from;
            assert(spinal(a.facts[k]->Node_0.kind));
            assert(stands(a.facts, edge.from));
            lemma_joins(a.facts, node, edge);
            assert forall|i: int| 0 <= i < b.facts.len() && b.facts[i] is Edge implies ends_in(
                (#[trigger] b.facts[i])->Edge_0,
                b.seen.union(promised),
            ) by {
                if i < a.facts.len() {
                    assert(b.facts[i] == a.facts[i]);
                }
            }
            assert forall|i: int|
                0 <= i < b.facts.len() && (#[trigger] b.facts[i]) is Node && upright(
                    b.facts[i]->Node_0.id,
                ) implies spinal(b.facts[i]->Node_0.kind) by {
                if i < a.facts.len() {
                    assert(b.facts[i] == a.facts[i]);
                }
            }
            assert forall|id: Text| #[trigger] b.seen.contains(id) implies declared(
                b.facts,
                id,
            ) by {
                lemma_declared(a.facts, FactV::Node(node), id);
                lemma_declared(a.facts.push(FactV::Node(node)), FactV::Edge(edge), id);
            }
        }
    }
}

// --- types -------------------------------------------------------------------

proof fn lemma_typed(a: LogV, ty: TypeRef, ev: EvidenceV, promised: Set<Text>)
    ensures
        goes_on(a, visit::typed(a, ty, ev), promised),
        visit::typed(a, ty, ev).seen.contains(visit::type_id(ty)),
    decreases ty, 1nat,
{
    let b = a.node(visit::type_node(ty));
    lemma_begins("type:"@, syntax::text_of(ty));
    lemma_aside(visit::type_id(ty));
    lemma_node(a, visit::type_node(ty), promised);
    lemma_type_args(b, visit::type_id(ty), ty, ev, promised);
    lemma_then(a, b, visit::typed(a, ty, ev), promised);
    lemma_keeps(b, visit::typed(a, ty, ev), promised, visit::type_id(ty));
}

proof fn lemma_argument(
    a: LogV,
    b: LogV,
    owner: Text,
    inner: TypeRef,
    position: nat,
    ev: EvidenceV,
    promised: Set<Text>,
)
    requires
        goes_on(a, b, promised),
        a.seen.contains(owner),
        b.seen.contains(visit::type_id(inner)),
    ensures
        goes_on(a, visit::argument(b, owner, inner, position, ev), promised),
{
    let c = visit::argument(b, owner, inner, position, ev);
    lemma_keeps(a, b, promised, owner);
    if owner == visit::type_id(inner) {
        lemma_same(b, promised);
    } else {
        let edge = EdgeV::new(EdgeKind::TypeArg, owner, visit::type_id(inner)).attr(
            "position"@,
            JsonV::Whole(position as u64),
        ).evidence(ev);
        lemma_edge(b, edge, promised);
    }
    lemma_then(a, b, c, promised);
}

proof fn lemma_type_args(a: LogV, owner: Text, ty: TypeRef, ev: EvidenceV, promised: Set<Text>)
    requires
        a.seen.contains(owner),
    ensures
        goes_on(a, visit::type_args(a, owner, ty, ev), promised),
    decreases ty, 0nat,
{
    match ty.form {
        Form::Reference(inner) => lemma_type_args(a, owner, *inner, ev, promised),
        Form::Paren(inner) => lemma_type_args(a, owner, *inner, ev, promised),
        Form::Slice(inner) => {
            lemma_typed(a, *inner, ev, promised);
            lemma_argument(a, visit::typed(a, *inner, ev), owner, *inner, 0, ev, promised);
        },
        Form::Array(inner) => {
            lemma_typed(a, *inner, ev, promised);
            lemma_argument(a, visit::typed(a, *inner, ev), owner, *inner, 0, ev, promised);
        },
        Form::Tuple(elems) => lemma_elem_args(a, owner, elems@, elems@.len(), ev, promised),
        Form::Path { args, .. } => lemma_path_args(a, owner, args@, args@.len(), ev, promised),
        Form::Other => lemma_same(a, promised),
    }
}

proof fn lemma_elem_args(a: LogV, owner: Text, elems: Seq<TypeRef>, n: nat, ev: EvidenceV, promised: Set<Text>)
    requires
        a.seen.contains(owner),
    ensures
        goes_on(a, visit::elem_args(a, owner, elems, n, ev), promised),
    decreases elems, n,
{
    if n > 0 && n <= elems.len() {
        let b = visit::elem_args(a, owner, elems, (n - 1) as nat, ev);
        lemma_elem_args(a, owner, elems, (n - 1) as nat, ev, promised);
        lemma_typed(b, elems[n - 1], ev, promised);
        lemma_then(a, b, visit::typed(b, elems[n - 1], ev), promised);
        lemma_argument(
            a,
            visit::typed(b, elems[n - 1], ev),
            owner,
            elems[n - 1],
            (n - 1) as nat,
            ev,
            promised,
        );
    } else {
        lemma_same(a, promised);
    }
}

proof fn lemma_path_args(a: LogV, owner: Text, args: Seq<Arg>, n: nat, ev: EvidenceV, promised: Set<Text>)
    requires
        a.seen.contains(owner),
    ensures
        goes_on(a, visit::path_args(a, owner, args, n, ev), promised),
    decreases args, n,
{
    if n > 0 && n <= args.len() {
        let b = visit::path_args(a, owner, args, (n - 1) as nat, ev);
        lemma_path_args(a, owner, args, (n - 1) as nat, ev, promised);
        if let Arg::Type(inner) = args[n - 1] {
            lemma_typed(b, inner, ev, promised);
            lemma_then(a, b, visit::typed(b, inner, ev), promised);
            lemma_argument(
                a,
                visit::typed(b, inner, ev),
                owner,
                inner,
                visit::types_before(args, (n - 1) as nat),
                ev,
                promised,
            );
        }
    } else {
        lemma_same(a, promised);
    }
}

/// A type and an edge to it.
proof fn lemma_to_type(
    a: LogV,
    b: LogV,
    ty: TypeRef,
    ev: EvidenceV,
    edge: EdgeV,
    promised: Set<Text>,
)
    requires
        goes_on(a, b, promised),
        a.seen.contains(edge.from),
        edge.to == visit::type_id(ty),
        wire::neat(edge.attrs),
    ensures
        goes_on(a, visit::typed(b, ty, ev).edge(edge), promised),
{
    let c = visit::typed(b, ty, ev);
    lemma_typed(b, ty, ev, promised);
    lemma_then(a, b, c, promised);
    lemma_keeps(a, c, promised, edge.from);
    lemma_edge(c, edge, promised);
    lemma_then(a, c, c.edge(edge), promised);
}

proof fn lemma_params(
    a: LogV,
    site: SiteV,
    owner: Text,
    inputs: Seq<Input>,
    n: nat,
    promised: Set<Text>,
)
    requires
        a.seen.contains(owner),
    ensures
        goes_on(a, visit::params(a, site, owner, inputs, n), promised),
    decreases n,
{
    if n > 0 {
        let b = visit::params(a, site, owner, inputs, (n - 1) as nat);
        lemma_params(a, site, owner, inputs, (n - 1) as nat, promised);
        if let Input::Typed { name, ty, span } = inputs[n - 1] {
            let edge = EdgeV::new(EdgeKind::Param, owner, visit::type_id(ty)).attr(
                "name"@,
                JsonV::Str(visit::input_name(name)),
            ).attr("position"@, JsonV::Whole((n - 1) as u64)).evidence(
                site.evidence(span),
            );
            lemma_to_type(a, b, ty, site.evidence(span), edge, promised);
        }
    } else {
        lemma_same(a, promised);
    }
}

proof fn lemma_signed(
    a: LogV,
    site: SiteV,
    owner: Text,
    signature: Prototype,
    promised: Set<Text>,
)
    requires
        a.seen.contains(owner),
    ensures
        goes_on(a, visit::signed(a, site, owner, signature), promised),
{
    let b = visit::params(a, site, owner, signature.inputs@, signature.inputs@.len());
    lemma_params(a, site, owner, signature.inputs@, signature.inputs@.len(), promised);
    if let Some((ty, span)) = signature.output {
        let edge = EdgeV::new(EdgeKind::Returns, owner, visit::type_id(ty)).evidence(
            site.evidence(span),
        );
        lemma_to_type(a, b, ty, site.evidence(span), edge, promised);
    }
}

proof fn lemma_field_edges(
    a: LogV,
    site: SiteV,
    name: Text,
    fields: Seq<Field>,
    n: nat,
    promised: Set<Text>,
)
    requires
        a.seen.contains("type:"@ + name),
    ensures
        goes_on(a, visit::field_edges(a, site, name, fields, n), promised),
    decreases n,
{
    if n > 0 {
        let b = visit::field_edges(a, site, name, fields, (n - 1) as nat);
        let field = fields[n - 1];
        lemma_field_edges(a, site, name, fields, (n - 1) as nat, promised);
        let edge = EdgeV::new(
            EdgeKind::HasField,
            "type:"@ + name,
            visit::type_id(field.ty),
        ).attr(
            "name"@,
            JsonV::Str(visit::field_name(field, (n - 1) as nat)),
        ).evidence(site.evidence(field.span));
        lemma_to_type(a, b, field.ty, site.evidence(field.span), edge, promised);
    } else {
        lemma_same(a, promised);
    }
}

proof fn lemma_defined(a: LogV, owner: Text, name: Text, ev: EvidenceV, promised: Set<Text>)
    requires
        a.seen.contains(owner),
    ensures
        goes_on(a, visit::defined(a, owner, name, ev), promised),
        visit::defined(a, owner, name, ev).seen.contains("type:"@ + name),
{
    let node = NodeV::new("type:"@ + name, NodeKind::Type).attr(
        "text"@,
        JsonV::Str(name),
    );
    lemma_begins("type:"@, name);
    lemma_aside("type:"@ + name);
    lemma_node_edge(
        a,
        node,
        EdgeV::new(EdgeKind::Defines, owner, "type:"@ + name).evidence(ev),
        promised,
    );
}

proof fn lemma_shaped(
    a: LogV,
    site: SiteV,
    owner: Text,
    name: Text,
    fields: Seq<Field>,
    span: Extent,
    promised: Set<Text>,
)
    requires
        a.seen.contains(owner),
    ensures
        goes_on(a, visit::shaped(a, site, owner, name, fields, span), promised),
{
    let b = visit::defined(a, owner, name, site.evidence(span));
    lemma_defined(a, owner, name, site.evidence(span), promised);
    lemma_field_edges(b, site, name, fields, fields.len(), promised);
    lemma_then(a, b, visit::shaped(a, site, owner, name, fields, span), promised);
}

proof fn lemma_variants(
    a: LogV,
    site: SiteV,
    owner: Text,
    name: Text,
    variants: Seq<Variant>,
    span: Extent,
    n: nat,
    promised: Set<Text>,
)
    requires
        a.seen.contains(owner),
    ensures
        goes_on(a, visit::variants_shaped(a, site, owner, name, variants, span, n), promised),
    decreases n,
{
    if n > 0 {
        let b = visit::variants_shaped(a, site, owner, name, variants, span, (n - 1) as nat);
        lemma_variants(a, site, owner, name, variants, span, (n - 1) as nat, promised);
        lemma_keeps(a, b, promised, owner);
        let full = name + "::"@ + variants[n - 1].name@;
        lemma_shaped(b, site, owner, full, variants[n - 1].fields@, span, promised);
        lemma_then(
            a,
            b,
            visit::shaped(b, site, owner, full, variants[n - 1].fields@, span),
            promised,
        );
    } else {
        lemma_same(a, promised);
    }
}

// --- symbols and effects -----------------------------------------------------

proof fn lemma_symbol_upright(site: SiteV, name: Text)
    ensures
        upright(site.symbol_id(name)),
{
    let id = site.symbol_id(name);
    lemma_begins("sym:"@, id.skip("sym:"@.len() as int));
    assert("sym:"@ + id.skip("sym:"@.len() as int) =~= id);
}

proof fn lemma_symbol(
    a: LogV,
    site: SiteV,
    name: Text,
    kind: Text,
    span: Extent,
    tokens: Option<Text>,
    promised: Set<Text>,
)
    requires
        a.seen.contains(site.container()),
        upright(site.container()),
    ensures
        goes_on(a, visit::symbol(a, site, name, kind, span, tokens), promised),
        visit::symbol(a, site, name, kind, span, tokens).seen.contains(site.symbol_id(name)),
        upright(site.symbol_id(name)),
{
    lemma_symbol_upright(site, name);
    let print = match tokens {
        Some(tokens) => visit::fingerprint(tokens),
        None => None,
    };
    lemma_place(
        a,
        visit::symbol_node(site, name, kind, span, print),
        EdgeV::new(EdgeKind::Contains, site.container(), site.symbol_id(name)).evidence(
            site.evidence(span),
        ),
        promised,
    );
}

/// A capability, and an edge to it.
proof fn lemma_to_capability(a: LogV, name: Text, edge: EdgeV, promised: Set<Text>)
    requires
        a.seen.contains(edge.from),
        edge.to == "cap:"@ + name,
        wire::neat(edge.attrs),
    ensures
        goes_on(a, visit::capable(a, "cap:"@ + name), promised),
        goes_on(a, visit::capable(a, "cap:"@ + name).edge(edge), promised),
{
    let id = "cap:"@ + name;
    let b = visit::capable(a, id);
    lemma_capable(a, name, promised);
    lemma_keeps(a, b, promised, edge.from);
    lemma_edge(b, edge, promised);
    lemma_then(a, b, b.edge(edge), promised);
}

proof fn lemma_capable(a: LogV, name: Text, promised: Set<Text>)
    ensures
        goes_on(a, visit::capable(a, "cap:"@ + name), promised),
        visit::capable(a, "cap:"@ + name).seen.contains("cap:"@ + name),
{
    let id = "cap:"@ + name;
    assert(id.subrange(0, "cap:"@.len() as int) =~= "cap:"@);
    let named = visit::named(
        NodeKind::Capability,
        id,
        id.skip("cap:"@.len() as int),
    );
    lemma_begins("cap:"@, name);
    lemma_aside(id);
    lemma_node(a, named, promised);
}

/// An effect on something that is there, or is declared on the way.
proof fn lemma_effect(
    a: LogV,
    site: SiteV,
    kind: EdgeKind,
    to: Text,
    op: Text,
    span: Extent,
    from: visit::ProvenanceV,
    promised: Set<Text>,
)
    requires
        a.seen.contains(site.container()),
        a.seen.contains(to) || exists|name: Text| to == "cap:"@ + name,
    ensures
        goes_on(a, visit::effect(a, site, kind, to, op, span, from), promised),
{
    let edge = visit::effect_edge(site, kind, to, op, span, from);
    if a.seen.contains(to) {
        let b = visit::capable(a, to);
        match text::without_prefix(to, "cap:"@) {
            Some(name) => {
                lemma_aside(to);
                lemma_node(a, visit::named(NodeKind::Capability, to, name), promised);
            },
            None => lemma_same(a, promised),
        }
        lemma_keeps(a, b, promised, to);
        lemma_keeps(a, b, promised, site.container());
        lemma_edge(b, edge, promised);
        lemma_then(a, b, b.edge(edge), promised);
    } else {
        let name = choose|name: Text| to == "cap:"@ + name;
        lemma_to_capability(a, name, edge, promised);
    }
}

proof fn lemma_unsafe_at(
    a: LogV,
    site: SiteV,
    owner: Text,
    form: Text,
    span: Extent,
    promised: Set<Text>,
)
    requires
        a.seen.contains(owner),
    ensures
        goes_on(a, visit::unsafe_at(a, site, owner, form, span), promised),
{
    let edge = EdgeV::new(EdgeKind::UnsafeAt, owner, "cap:"@ + "unsafe"@).attr(
        "form"@,
        JsonV::Str(form),
    ).evidence(site.evidence(span));
    lemma_to_capability(a, "unsafe"@, edge, promised);
}

proof fn lemma_calls(
    a: LogV,
    site: SiteV,
    name: Text,
    path: Text,
    form: Text,
    span: Extent,
    promised: Set<Text>,
)
    requires
        a.seen.contains(site.container()),
    ensures
        goes_on(a, visit::calls(a, site, name, path, form, span), promised),
{
    if name.len() == 0 || table::lookup(site.facts.defined, name) is None {
        lemma_same(a, promised);
    } else {
        let to = "ext:"@ + name;
        lemma_begins("ext:"@, name);
        lemma_aside(to);
        let edge = EdgeV::new(EdgeKind::Calls, site.container(), to).attr(
            "form"@,
            JsonV::Str(form),
        ).inferred("name"@).evidence(site.evidence(span));
        let edge = if path != name {
            edge.attr("path"@, JsonV::Str(path))
        } else {
            edge
        };
        lemma_node_edge(
            a,
            visit::named(NodeKind::External, to, name),
            edge.in_test(site.in_test),
            promised,
        );
    }
}

proof fn lemma_call(
    a: LogV,
    site: SiteV,
    bindings: Seq<(Text, BindingV)>,
    func: Expression,
    args: Seq<Expression>,
    span: Extent,
    promised: Set<Text>,
)
    requires
        a.seen.contains(site.container()),
    ensures
        goes_on(a, visit::call(a, site, bindings, func, args, span), promised),
{
    let end = visit::call(a, site, bindings, func, args, span);
    match syntax::path_of(func) {
        None => lemma_same(a, promised),
        Some(raw) => {
            let path = visit::canonical(site.aliases, raw);
            let b = visit::calls(a, site, syntax::bare(path), path, "path"@, span);
            lemma_calls(a, site, syntax::bare(path), path, "path"@, span, promised);
            lemma_keeps(a, b, promised, site.container());
            let (name, from) = visit::aimed(site.facts, bindings, args);
            let literal = visit::ProvenanceV::new("literal"@);
            if text::has_suffix(path, "Command::new"@) {
                let to = "proc:"@ + name;
                lemma_begins("proc:"@, name);
                lemma_aside(to);
                let node = visit::named(NodeKind::Process, to, name);
                lemma_node(b, node, promised);
                lemma_keeps(b, b.node(node), promised, site.container());
                lemma_effect(
                    b.node(node),
                    site,
                    EdgeKind::Spawns,
                    to,
                    path,
                    span,
                    from,
                    promised,
                );
                lemma_then(b, b.node(node), end, promised);
            } else if visit::touches_env(path) {
                let to = "env:"@ + name;
                lemma_begins("env:"@, name);
                lemma_aside(to);
                let node = visit::named(NodeKind::EnvVar, to, name);
                lemma_node(b, node, promised);
                lemma_keeps(b, b.node(node), promised, site.container());
                lemma_effect(
                    b.node(node),
                    site,
                    EdgeKind::ReadsEnv,
                    to,
                    path,
                    span,
                    from,
                    promised,
                );
                lemma_then(b, b.node(node), end, promised);
            } else if text::has_suffix(path, "process::exit"@) || text::has_suffix(
                path,
                "process::abort"@,
            ) {
                lemma_effect(
                    b,
                    site,
                    EdgeKind::EffectExec,
                    "cap:"@ + "exec"@,
                    path,
                    span,
                    literal,
                    promised,
                );
            } else if text::has_part(path, "fs::"@) {
                lemma_effect(
                    b,
                    site,
                    EdgeKind::EffectFs,
                    "cap:"@ + "fs"@,
                    path,
                    span,
                    literal,
                    promised,
                );
            } else if syntax::on_network(path) {
                lemma_effect(
                    b,
                    site,
                    EdgeKind::EffectNet,
                    "cap:"@ + "net"@,
                    path,
                    span,
                    literal,
                    promised,
                );
            } else {
                lemma_same(b, promised);
            }
            lemma_then(a, b, end, promised);
        },
    }
}

proof fn lemma_spawn_args(
    a: LogV,
    site: SiteV,
    bindings: Seq<(Text, BindingV)>,
    args: Seq<Expression>,
    span: Extent,
    n: nat,
    promised: Set<Text>,
)
    requires
        a.seen.contains(site.container()),
    ensures
        goes_on(a, visit::spawn_args(a, site, bindings, args, span, n), promised),
    decreases n,
{
    if n > 0 {
        let b = visit::spawn_args(a, site, bindings, args, span, (n - 1) as nat);
        lemma_spawn_args(a, site, bindings, args, span, (n - 1) as nat, promised);
        lemma_keeps(a, b, promised, site.container());
        let (value, from) = visit::target(
            site.facts,
            visit::resolved(site.facts, bindings, args[n - 1]),
        );
        lemma_to_capability(b, "exec"@, visit::spawn_arg(site, value, from, span), promised);
        lemma_then(
            a,
            b,
            visit::spawn_args(a, site, bindings, args, span, n),
            promised,
        );
    } else {
        lemma_same(a, promised);
    }
}

proof fn lemma_method(
    a: LogV,
    site: SiteV,
    bindings: Seq<(Text, BindingV)>,
    name: Text,
    args: Seq<Expression>,
    span: Extent,
    promised: Set<Text>,
)
    requires
        a.seen.contains(site.container()),
    ensures
        goes_on(a, visit::method(a, site, bindings, name, args, span), promised),
{
    let b = visit::calls(a, site, name, name, "method"@, span);
    lemma_calls(a, site, name, name, "method"@, span, promised);
    lemma_keeps(a, b, promised, site.container());
    lemma_spawn_args(b, site, bindings, args, span, args.len(), promised);
    lemma_then(
        a,
        b,
        visit::spawn_args(b, site, bindings, args, span, args.len()),
        promised,
    );
}

proof fn lemma_lints(
    a: LogV,
    site: SiteV,
    owner: Text,
    attr: Attr,
    form: Text,
    scope: Text,
    n: nat,
    promised: Set<Text>,
)
    requires
        a.seen.contains(owner),
        a.seen.contains("cap:"@ + "lint"@),
    ensures
        goes_on(a, visit::lints_silenced(a, site, owner, attr, form, scope, n), promised),
    decreases n,
{
    if n > 0 {
        let b = visit::lints_silenced(a, site, owner, attr, form, scope, (n - 1) as nat);
        lemma_lints(a, site, owner, attr, form, scope, (n - 1) as nat, promised);
        let lint = syntax::dotted(attr.metas.deep_view()[n - 1]);
        if lint != "reason"@ {
            let edge = visit::silence_edge(site, owner, attr, form, lint, scope);
            lemma_keeps(a, b, promised, owner);
            lemma_keeps(a, b, promised, "cap:"@ + "lint"@);
            lemma_edge(b, edge, promised);
            lemma_then(a, b, b.edge(edge), promised);
        }
    } else {
        lemma_same(a, promised);
    }
}

proof fn lemma_silenced(
    a: LogV,
    site: SiteV,
    owner: Text,
    attrs: Seq<Attr>,
    scope: Text,
    n: nat,
    promised: Set<Text>,
)
    requires
        a.seen.contains(owner),
    ensures
        goes_on(a, visit::silenced(a, site, owner, attrs, scope, n), promised),
    decreases n,
{
    if n > 0 {
        let b = visit::silenced(a, site, owner, attrs, scope, (n - 1) as nat);
        lemma_silenced(a, site, owner, attrs, scope, (n - 1) as nat, promised);
        let attr = attrs[n - 1];
        if let Some(form) = visit::silencing(attr) {
            let c = visit::capable(b, "cap:"@ + "lint"@);
            lemma_capable(b, "lint"@, promised);
            lemma_then(a, b, c, promised);
            lemma_keeps(a, c, promised, owner);
            lemma_lints(c, site, owner, attr, form, scope, attr.metas@.len(), promised);
            lemma_then(
                a,
                c,
                visit::lints_silenced(c, site, owner, attr, form, scope, attr.metas@.len()),
                promised,
            );
        }
    } else {
        lemma_same(a, promised);
    }
}

/// Whether every package that is known by name is promised.
spec fn all_promised(known: Seq<(Text, Text)>, promised: Set<Text>) -> bool {
    forall|name: Text|
        (#[trigger] table::lookup(known, name)) is Some ==> promised.contains(
            table::lookup(known, name)->0,
        )
}

proof fn lemma_imports(
    a: LogV,
    site: SiteV,
    leaves: Seq<Seq<Text>>,
    span: Extent,
    n: nat,
    promised: Set<Text>,
)
    requires
        a.seen.contains(site.file_id),
        all_promised(site.known, promised),
    ensures
        goes_on(a, visit::imports(a, site, leaves, span, n), promised),
    decreases n,
{
    if n > 0 {
        let b = visit::imports(a, site, leaves, span, (n - 1) as nat);
        lemma_imports(a, site, leaves, span, (n - 1) as nat, promised);
        lemma_keeps(a, b, promised, site.file_id);
        let leaf = leaves[n - 1];
        if leaf.len() > 0 {
            if let Some(to) = visit::import_target(site, leaf[0]) {
                let c = if text::has_prefix(to, "ext:"@) {
                    b.node(visit::named(NodeKind::External, to, leaf[0]))
                } else {
                    b
                };
                if text::has_prefix(to, "ext:"@) {
                    lemma_aside(to);
                    lemma_node(
                        b,
                        visit::named(NodeKind::External, to, leaf[0]),
                        promised,
                    );
                } else {
                    lemma_same(b, promised);
                    assert(("ext:"@ + leaf[0]).subrange(0, "ext:"@.len() as int) =~= "ext:"@);
                    assert(table::lookup(site.known, leaf[0]) == Some(to));
                }
                lemma_then(a, b, c, promised);
                lemma_keeps(a, c, promised, site.file_id);
                let edge = EdgeV::new(EdgeKind::Imports, site.file_id, to).attr(
                    "path"@,
                    JsonV::Str(syntax::dotted(leaf)),
                ).evidence(site.evidence(span));
                lemma_edge(c, edge, promised);
                lemma_then(a, c, c.edge(edge), promised);
            }
        }
    } else {
        lemma_same(a, promised);
    }
}

proof fn lemma_function(a: LogV, site: SiteV, f: Function, promised: Set<Text>)
    requires
        a.seen.contains(site.container()),
        upright(site.container()),
    ensures
        goes_on(a, visit::function(a, site, f), promised),
        visit::function(a, site, f).seen.contains(site.symbol_id(f.name@)),
        upright(site.symbol_id(f.name@)),
{
    let id = site.symbol_id(f.name@);
    let kind = if f.method {
        "method"@
    } else {
        "fn"@
    };
    let b = visit::symbol(a, site, f.name@, kind, f.span, Some(f.tokens@));
    lemma_symbol(a, site, f.name@, kind, f.span, Some(f.tokens@), promised);
    let c = visit::silenced(b, site, id, f.attrs@, "item"@, f.attrs@.len());
    lemma_silenced(b, site, id, f.attrs@, "item"@, f.attrs@.len(), promised);
    lemma_then(a, b, c, promised);
    lemma_keeps(b, c, promised, id);
    let d = visit::signed(c, site, id, f.signature);
    lemma_signed(c, site, id, f.signature, promised);
    lemma_then(a, c, d, promised);
    lemma_keeps(c, d, promised, id);
    if f.is_unsafe {
        let e = visit::unsafe_at(d, site, id, "unsafe fn"@, f.signature_span);
        lemma_unsafe_at(d, site, id, "unsafe fn"@, f.signature_span, promised);
        lemma_then(a, d, e, promised);
        lemma_keeps(d, e, promised, id);
    }
}

// --- one file ----------------------------------------------------------------

/// Whether what a place belongs to is there.
spec fn rooted(log: LogV, site: SiteV, promised: Set<Text>) -> bool {
    &&& log.seen.contains(site.container())
    &&& upright(site.container())
    &&& log.seen.contains(site.file_id)
    &&& all_promised(site.known, promised)
}

proof fn lemma_rooted(a: LogV, b: LogV, site: SiteV, promised: Set<Text>)
    requires
        rooted(a, site, promised),
        goes_on(a, b, promised),
    ensures
        rooted(b, site, promised),
{
    lemma_keeps(a, b, promised, site.container());
    lemma_keeps(a, b, promised, site.file_id);
}

/// A symbol that may be unsafe.
proof fn lemma_marked(
    a: LogV,
    site: SiteV,
    name: Text,
    kind: Text,
    form: Text,
    is_unsafe: bool,
    span: Extent,
    promised: Set<Text>,
)
    requires
        a.seen.contains(site.container()),
        upright(site.container()),
    ensures
        ({
            let b = visit::symbol(a, site, name, kind, span, None);
            let c = if is_unsafe {
                visit::unsafe_at(b, site, site.symbol_id(name), form, span)
            } else {
                b
            };
            goes_on(a, c, promised) && c.seen.contains(site.symbol_id(name)) && upright(
                site.symbol_id(name),
            )
        }),
{
    let id = site.symbol_id(name);
    let b = visit::symbol(a, site, name, kind, span, None);
    lemma_symbol(a, site, name, kind, span, None, promised);
    if is_unsafe {
        let c = visit::unsafe_at(b, site, id, form, span);
        lemma_unsafe_at(b, site, id, form, span, promised);
        lemma_then(a, b, c, promised);
        lemma_keeps(b, c, promised, id);
    }
}

proof fn lemma_written(
    a: LogV,
    site: SiteV,
    bindings: Seq<(Text, BindingV)>,
    place: Place,
    promised: Set<Text>,
)
    requires
        rooted(a, site, promised),
    ensures
        goes_on(a, visit::written(a, site, bindings, place), promised),
        rooted(visit::written(a, site, bindings, place), visit::inside(site, place), promised),
{
    let end = visit::written(a, site, bindings, place);
    match place {
        Place::Fn(f) => lemma_function(a, site, f, promised),
        Place::Struct { name, fields, span } => {
            let id = site.symbol_id(name@);
            let b = visit::symbol(a, site, name@, "struct"@, span, None);
            lemma_symbol(a, site, name@, "struct"@, span, None, promised);
            lemma_shaped(b, site, id, name@, fields@, span, promised);
            lemma_then(a, b, end, promised);
        },
        Place::Enum { name, variants, span } => {
            let id = site.symbol_id(name@);
            let b = visit::symbol(a, site, name@, "enum"@, span, None);
            lemma_symbol(a, site, name@, "enum"@, span, None, promised);
            let c = visit::defined(b, id, name@, site.evidence(span));
            lemma_defined(b, id, name@, site.evidence(span), promised);
            lemma_then(a, b, c, promised);
            lemma_keeps(b, c, promised, id);
            lemma_variants(c, site, id, name@, variants@, span, variants@.len(), promised);
            lemma_then(a, c, end, promised);
        },
        Place::Trait { name, span } => {
            lemma_symbol(a, site, name@, "trait"@, span, None, promised);
        },
        Place::Const { name, span, .. } => {
            lemma_symbol(a, site, name@, "const"@, span, None, promised);
        },
        Place::Global { name, mutable, span, .. } => {
            lemma_marked(
                a,
                site,
                name@,
                "static"@,
                "static mut"@,
                mutable,
                span,
                promised,
            );
        },
        Place::Impl { ty, of_trait, is_unsafe, span } => {
            lemma_marked(
                a,
                site,
                visit::impl_name(ty, of_trait),
                "impl"@,
                "unsafe impl"@,
                is_unsafe,
                span,
                promised,
            );
        },
        Place::Alias { .. } => lemma_same(a, promised),
        Place::Mod { .. } => lemma_same(a, promised),
        Place::Use { tree, span } => {
            let leaves = syntax::leaves(tree, seq![], seq![]);
            lemma_imports(a, site, leaves, span, leaves.len(), promised);
        },
        Place::Local { pattern, init, span } => {
            if let (syntax::Pattern::Wild, Some(e)) = (pattern, init) {
                if let Some(name) = syntax::called(e) {
                    lemma_begins("ext:"@, name);
                    lemma_aside("ext:"@ + name);
                    lemma_node_edge(
                        a,
                        visit::named(NodeKind::External, "ext:"@ + name, name),
                        EdgeV::new(
                            EdgeKind::Discards,
                            site.container(),
                            "ext:"@ + name,
                        ).evidence(site.evidence(span)).in_test(site.in_test),
                        promised,
                    );
                } else {
                    lemma_same(a, promised);
                }
            } else {
                lemma_same(a, promised);
            }
        },
        Place::Match { arms, span } => {
            if let Some(arm) = visit::catch_all(arms@, 0) {
                let edge = EdgeV::new(
                    EdgeKind::DefaultArm,
                    site.container(),
                    "cap:"@ + "dispatch"@,
                ).attr("arms"@, JsonV::Whole(arms@.len() as u64)).attr(
                    "empty"@,
                    JsonV::Bool(syntax::idle(arm.body)),
                ).evidence(site.evidence(span)).in_test(site.in_test);
                lemma_to_capability(a, "dispatch"@, edge, promised);
            } else {
                lemma_same(a, promised);
            }
        },
        Place::Unsafe { span } => {
            lemma_unsafe_at(a, site, site.container(), "unsafe block"@, span, promised);
        },
        Place::Call { func, args, span } => {
            lemma_call(a, site, bindings, func, args@, span, promised);
        },
        Place::Method { name, args, span } => {
            lemma_method(a, site, bindings, name@, args@, span, promised);
        },
        Place::Macro { name, given, span } => {
            if visit::interpolates(name@, given) {
                let edge = EdgeV::new(
                    EdgeKind::Interpolates,
                    site.container(),
                    "cap:"@ + "json"@,
                ).attr("via"@, JsonV::Str(name@)).evidence(
                    site.evidence(span),
                ).in_test(site.in_test);
                lemma_to_capability(a, "json"@, edge, promised);
            } else {
                lemma_same(a, promised);
            }
        },
    }
    lemma_rooted(a, end, site, promised);
}

proof fn lemma_visited(state: State, site: SiteV, part: Part, promised: Set<Text>)
    requires
        rooted(state.log, site, promised),
    ensures
        goes_on(state.log, visit::visited(state, site, part).log, promised),
    decreases part, 0nat,
{
    let a = state.log;
    let log = visit::written(a, site, state.bindings, part.place);
    lemma_written(a, site, state.bindings, part.place, promised);
    lemma_rooted(a, log, site, promised);
    let bindings = match part.place {
        Place::Local { pattern, init, .. } => visit::binding(state.bindings, pattern, init),
        _ => state.bindings,
    };
    let here = State { log, bindings };
    let inner = visit::inside(site, part.place);
    let end = visit::visited(state, site, part).log;
    match part.place {
        Place::Fn(_) => lemma_visited_all(
            State { log, bindings: seq![] },
            inner,
            part.parts@,
            part.parts@.len(),
            promised,
        ),
        Place::Macro { name, given, .. } => {
            if visit::looked_into(name@, given) {
                let handed = visit::visited_all(here, site, part.handed@, part.handed@.len());
                lemma_visited_all(here, site, part.handed@, part.handed@.len(), promised);
                lemma_rooted(log, handed.log, inner, promised);
                lemma_visited_all(handed, inner, part.parts@, part.parts@.len(), promised);
                lemma_then(log, handed.log, end, promised);
            } else {
                lemma_visited_all(here, inner, part.parts@, part.parts@.len(), promised);
            }
        },
        _ => lemma_visited_all(here, inner, part.parts@, part.parts@.len(), promised),
    }
    lemma_then(a, log, end, promised);
}

proof fn lemma_visited_all(
    state: State,
    site: SiteV,
    parts: Seq<Part>,
    n: nat,
    promised: Set<Text>,
)
    requires
        rooted(state.log, site, promised),
    ensures
        goes_on(state.log, visit::visited_all(state, site, parts, n).log, promised),
    decreases parts, n,
{
    if n > 0 && n <= parts.len() {
        let before = visit::visited_all(state, site, parts, (n - 1) as nat);
        lemma_visited_all(state, site, parts, (n - 1) as nat, promised);
        lemma_rooted(state.log, before.log, site, promised);
        lemma_visited(before, site, parts[n - 1], promised);
        lemma_then(
            state.log,
            before.log,
            visit::visited(before, site, parts[n - 1]).log,
            promised,
        );
    } else {
        lemma_same(state.log, promised);
    }
}

proof fn lemma_file_visited(a: LogV, site: SiteV, tree: Tree, promised: Set<Text>)
    requires
        rooted(a, site, promised),
    ensures
        goes_on(a, visit::file_visited(a, site, tree), promised),
{
    let attrs = tree.attrs@;
    let b = visit::silenced(a, site, site.file_id, attrs, "crate"@, attrs.len());
    lemma_silenced(a, site, site.file_id, attrs, "crate"@, attrs.len(), promised);
    lemma_rooted(a, b, site, promised);
    lemma_visited_all(
        State { log: b, bindings: seq![] },
        site,
        tree.parts@,
        tree.parts@.len(),
        promised,
    );
    lemma_then(a, b, visit::file_visited(a, site, tree), promised);
}

// --- a workspace -------------------------------------------------------------

proof fn lemma_file_written(
    a: LogV,
    vfs: VfsV,
    package: Text,
    place: EvidenceV,
    file: ParsedV,
    known: Seq<(Text, Text)>,
    facts: FactsV,
    promised: Set<Text>,
)
    requires
        a.seen.contains(package),
        upright(package),
        all_promised(known, promised),
    ensures
        goes_on(a, extract::file_written(a, vfs, package, place, file, known, facts), promised),
{
    let dir = "dir:"@ + extract::parent(file.rel_path);
    let above = extract::directory(dir, text::shorn_start(dir, "dir:"@));
    let to_dir = EdgeV::new(EdgeKind::Contains, package, dir).evidence(place);
    let node = extract::file_node(vfs, file);
    let to_file = EdgeV::new(EdgeKind::Contains, dir, "file:"@ + file.rel_path).evidence(
        extract::file_place(vfs, file.rel_path),
    );
    let b = a.node(above).edge(to_dir);
    lemma_begins("dir:"@, extract::parent(file.rel_path));
    lemma_begins("file:"@, file.rel_path);
    lemma_place(a, above, to_dir, promised);
    let c = b.node(node).edge(to_file);
    lemma_place(b, node, to_file, promised);
    lemma_then(a, b, c, promised);
    let site = visit::site_of(package, file, known, facts);
    lemma_file_visited(c, site, file.parsed, promised);
    lemma_then(a, c, visit::file_visited(c, site, file.parsed), promised);
}

proof fn lemma_files_written(
    a: LogV,
    vfs: VfsV,
    package: Text,
    place: EvidenceV,
    files: Seq<ParsedV>,
    known: Seq<(Text, Text)>,
    facts: FactsV,
    n: nat,
    promised: Set<Text>,
)
    requires
        a.seen.contains(package),
        upright(package),
        all_promised(known, promised),
    ensures
        goes_on(a, extract::files_written(a, vfs, package, place, files, known, facts, n), promised),
    decreases n,
{
    if n > 0 {
        let b = extract::files_written(a, vfs, package, place, files, known, facts, (n - 1) as nat);
        lemma_files_written(a, vfs, package, place, files, known, facts, (n - 1) as nat, promised);
        lemma_keeps(a, b, promised, package);
        lemma_file_written(b, vfs, package, place, files[n - 1], known, facts, promised);
        lemma_then(
            a,
            b,
            extract::file_written(b, vfs, package, place, files[n - 1], known, facts),
            promised,
        );
    } else {
        lemma_same(a, promised);
    }
}

proof fn lemma_programs(
    a: LogV,
    package: Text,
    place: EvidenceV,
    targets: Seq<TargetV>,
    n: nat,
    promised: Set<Text>,
)
    requires
        a.seen.contains(package),
        upright(package),
    ensures
        goes_on(a, extract::programs(a, package, place, targets, n), promised),
    decreases n,
{
    if n > 0 {
        let b = extract::programs(a, package, place, targets, (n - 1) as nat);
        lemma_programs(a, package, place, targets, (n - 1) as nat, promised);
        let name = targets[n - 1].name;
        if targets[n - 1].kind == "bin"@ {
            let node = visit::named(NodeKind::Binary, "bin:"@ + name, name);
            let edge = EdgeV::new(EdgeKind::Contains, package, "bin:"@ + name).evidence(place);
            lemma_keeps(a, b, promised, package);
            lemma_place(b, node, edge, promised);
            lemma_then(a, b, b.node(node).edge(edge), promised);
        }
    } else {
        lemma_same(a, promised);
    }
}

proof fn lemma_depends(
    a: LogV,
    vfs: VfsV,
    package: PackageV,
    known: Seq<(Text, Text)>,
    n: nat,
    promised: Set<Text>,
)
    requires
        a.seen.contains("pkg:"@ + package.name),
        all_promised(known, promised),
    ensures
        goes_on(a, extract::depends(a, vfs, package, known, n), promised),
    decreases n,
{
    if n > 0 {
        let b = extract::depends(a, vfs, package, known, (n - 1) as nat);
        lemma_depends(a, vfs, package, known, (n - 1) as nat, promised);
        let dep = package.dependencies[n - 1];
        let to = extract::dependency_id(known, dep.name);
        let node = visit::named(NodeKind::External, to, dep.name);
        let c = if text::has_prefix(to, "ext:"@) {
            b.node(node)
        } else {
            b
        };
        if text::has_prefix(to, "ext:"@) {
            lemma_aside(to);
            lemma_node(b, node, promised);
        } else {
            lemma_same(b, promised);
            assert(("ext:"@ + dep.name).subrange(0, "ext:"@.len() as int) =~= "ext:"@);
            assert(table::lookup(known, text::replaced(dep.name, '-', "_"@)) == Some(to));
        }
        lemma_then(a, b, c, promised);
        lemma_keeps(a, c, promised, "pkg:"@ + package.name);
        let source = match vfs.read(package.manifest_path) {
            Some(source) => source,
            None => seq![],
        };
        let line = extract::declared_at(source, dep.name);
        let edge = EdgeV::new(EdgeKind::DependsOn, "pkg:"@ + package.name, to).attr(
            "kind"@,
            JsonV::Str(dep.kind),
        ).evidence(schema::seen_at(schema::path_shown(package.manifest_path), (line, line), None));
        lemma_edge(c, edge, promised);
        lemma_then(a, c, c.edge(edge), promised);
    } else {
        lemma_same(a, promised);
    }
}

proof fn lemma_package_written(
    a: LogV,
    vfs: VfsV,
    package: PackageV,
    files: Seq<ParsedV>,
    known: Seq<(Text, Text)>,
    facts: FactsV,
    promised: Set<Text>,
)
    requires
        all_promised(known, promised),
    ensures
        ({
            let end = extract::package_written(a, vfs, package, files, known, facts);
            goes_on(a, end, promised) && end.seen.contains("pkg:"@ + package.name)
        }),
{
    let id = "pkg:"@ + package.name;
    let dir = extract::parent(package.manifest_path);
    let targets = package.targets;
    let place = extract::package_place(vfs, package.manifest_path);
    lemma_begins("pkg:"@, package.name);
    let b = a.node(extract::package_node(package));
    lemma_node(a, extract::package_node(package), promised);
    let c = extract::programs(b, id, place, targets, targets.len());
    lemma_programs(b, id, place, targets, targets.len(), promised);
    lemma_keeps(b, c, promised, id);
    lemma_then(a, b, c, promised);
    let d = extract::depends(c, vfs, package, known, package.dependencies.len());
    lemma_depends(c, vfs, package, known, package.dependencies.len(), promised);
    lemma_keeps(c, d, promised, id);
    lemma_then(a, c, d, promised);
    let node = extract::directory("dir:"@ + dir, dir);
    let edge = EdgeV::new(EdgeKind::Contains, id, "dir:"@ + dir).evidence(place);
    let e = d.node(node).edge(edge);
    lemma_place(d, node, edge, promised);
    lemma_keeps(d, e, promised, id);
    lemma_then(a, d, e, promised);
    let end = extract::files_written(e, vfs, id, place, files, known, facts, files.len());
    lemma_files_written(e, vfs, id, place, files, known, facts, files.len(), promised);
    lemma_keeps(e, end, promised, id);
    lemma_then(a, e, end, promised);
}

/// The nodes of the first `n` packages.
spec fn packages_of(packages: Seq<PackageV>, n: nat) -> Set<Text>
    decreases n,
{
    if n == 0 {
        Set::empty()
    } else {
        packages_of(packages, (n - 1) as nat).insert("pkg:"@ + packages[n - 1].name)
    }
}

proof fn lemma_known(packages: Seq<PackageV>, n: nat)
    ensures
        all_promised(extract::known_of(packages, n), packages_of(packages, n)),
    decreases n,
{
    if n > 0 {
        lemma_known(packages, (n - 1) as nat);
        let before = extract::known_of(packages, (n - 1) as nat);
        let key = text::replaced(packages[n - 1].name, '-', "_"@);
        let id = "pkg:"@ + packages[n - 1].name;
        assert forall|name: Text|
            (#[trigger] table::lookup(
                extract::known_of(packages, n),
                name,
            )) is Some implies packages_of(packages, n).contains(
            table::lookup(extract::known_of(packages, n), name)->0,
        ) by {
            table::lemma_put_lookup(before, key, id, name);
        }
    }
}

proof fn lemma_packages_written(
    a: LogV,
    vfs: VfsV,
    packages: Seq<PackageV>,
    files: Seq<Seq<ParsedV>>,
    facts: FactsV,
    n: nat,
    promised: Set<Text>,
)
    requires
        all_promised(extract::known_of(packages, packages.len()), promised),
    ensures
        goes_on(a, extract::packages_written(a, vfs, packages, files, facts, n), promised),
        packages_of(packages, n).subset_of(
            extract::packages_written(a, vfs, packages, files, facts, n).seen,
        ),
    decreases n,
{
    if n > 0 {
        let known = extract::known_of(packages, packages.len());
        let b = extract::packages_written(a, vfs, packages, files, facts, (n - 1) as nat);
        lemma_packages_written(a, vfs, packages, files, facts, (n - 1) as nat, promised);
        let own = extract::files_for(packages, files, packages[n - 1].name, 0);
        let c = extract::package_written(b, vfs, packages[n - 1], own, known, facts);
        lemma_package_written(b, vfs, packages[n - 1], own, known, facts, promised);
        lemma_then(a, b, c, promised);
        assert forall|id: Text| #[trigger]
            packages_of(packages, n).contains(id) implies c.seen.contains(id) by {
            if packages_of(packages, (n - 1) as nat).contains(id) {
                lemma_keeps(b, c, promised, id);
            }
        }
    } else {
        lemma_same(a, promised);
    }
}

/// What a reader writes begins with one header and has no node twice. Both ends
/// of every edge that it writes are nodes that it writes; and
/// every directory, file, symbol and program that it writes is contained in
/// something of that kind, or in a package, that it has written before. What
/// each of them says is plain, so that it survives being written and read.
pub proof fn lemma_hangs_together(reader: Reader, packages: Seq<PackageV>)
    ensures
        begun(written::writes(reader, packages)),
        written::writes(reader, packages).facts[0] == FactV::header("rust"@, reader.vfs.label),
        anchored(written::writes(reader, packages).facts),
        joined(written::writes(reader, packages).facts),
        forall|i: int|
            0 <= i < written::writes(reader, packages).facts.len() ==> wire::fact_plain(
                #[trigger] written::writes(reader, packages).facts[i],
            ),
{
    let promised = packages_of(packages, packages.len());
    let header = FactV::header("rust"@, reader.vfs.label);
    let start = LogV::empty().fact(header);
    writer::lemma_sound(LogV::empty(), arbitrary(), arbitrary(), header);
    let end = written::writes(reader, packages);
    lemma_known(packages, packages.len());
    lemma_packages_written(
        start,
        reader.vfs,
        packages,
        reader.files,
        reader.facts,
        packages.len(),
        promised,
    );
    reveal(goes_on);
    assert(held(end, promised));
    assert forall|i: int| 0 <= i < end.facts.len() implies wire::fact_plain(
        #[trigger] end.facts[i],
    ) by {
        wire::lemma_tidy(end.facts[i]);
    }
    assert forall|i: int|
        0 <= i < end.facts.len() && (#[trigger] end.facts[i]) is Edge implies declared(
        end.facts,
        end.facts[i]->Edge_0.from,
    ) && declared(end.facts, end.facts[i]->Edge_0.to) by {
        let e = end.facts[i]->Edge_0;
        assert(ends_in(e, end.seen.union(promised)));
        assert(end.seen.contains(e.from) && end.seen.contains(e.to));
    }
}

proof fn lemma_ids(facts: Seq<FactV>, n: nat, id: Text)
    requires
        n <= facts.len(),
        declared(facts.take(n as int), id),
    ensures
        ({
            let nodes = facts::facts_told(facts, n).nodes;
            table::lookup(query::ids(nodes, nodes.len()), id) is Some
        }),
    decreases n,
{
    let all = facts.take(n as int);
    let i = choose|i: int|
        0 <= i < all.len() && (#[trigger] all[i]) is Node && all[i]->Node_0.id == id;
    let last = (n - 1) as nat;
    let before = facts::facts_told(facts, last).nodes;
    let nodes = facts::facts_told(facts, n).nodes;
    if i < last {
        assert(facts.take(last as int)[i] == all[i]);
        lemma_ids(facts, last, id);
    }
    if facts[last as int] is Node {
        let node = facts[last as int]->Node_0;
        assert(nodes =~= before.push(node));
        lemma_ids_prefix(before, nodes, before.len());
        table::lemma_put_lookup(query::ids(before, before.len()), node.id, (), id);
    } else {
        assert(nodes =~= before);
    }
}

proof fn lemma_ids_prefix(a: Seq<NodeV>, b: Seq<NodeV>, n: nat)
    requires
        n <= a.len() <= b.len(),
        forall|i: int| 0 <= i < n ==> a[i] == b[i],
    ensures
        query::ids(a, n) == query::ids(b, n),
    decreases n,
{
    if n > 0 {
        lemma_ids_prefix(a, b, (n - 1) as nat);
    }
}

proof fn lemma_edges_told(facts: Seq<FactV>, n: nat, k: int) -> (i: int)
    requires
        n <= facts.len(),
        0 <= k < facts::facts_told(facts, n).edges.len(),
    ensures
        0 <= i < n,
        facts[i] == FactV::Edge(facts::facts_told(facts, n).edges[k]),
    decreases n,
{
    let before = facts::facts_told(facts, (n - 1) as nat).edges;
    if k < before.len() {
        lemma_edges_told(facts, (n - 1) as nat, k)
    } else {
        n - 1
    }
}

proof fn lemma_none_dangle(edges: Seq<EdgeV>, known: Seq<(Text, ())>, n: nat)
    requires
        n <= edges.len(),
        forall|k: int| 0 <= k < edges.len() ==> query::is_anchored(#[trigger] edges[k], known),
    ensures
        query::edge_statements(edges, known, n).1 == 0,
    decreases n,
{
    if n > 0 {
        lemma_none_dangle(edges, known, (n - 1) as nat);
    }
}

/// An engine that is told what a reader writes drops none of its edges.
pub proof fn lemma_nothing_dangles(reader: Reader, packages: Seq<PackageV>)
    ensures
        ({
            let facts = written::writes(reader, packages).facts;
            let told = facts::facts_told(facts, facts.len());
            query::edge_statements(
                told.edges,
                query::ids(told.nodes, told.nodes.len()),
                told.edges.len(),
            ).1 == 0
        }),
{
    let facts = written::writes(reader, packages).facts;
    let told = facts::facts_told(facts, facts.len());
    let known = query::ids(told.nodes, told.nodes.len());
    lemma_hangs_together(reader, packages);
    assert(facts.take(facts.len() as int) =~= facts);
    assert forall|k: int| 0 <= k < told.edges.len() implies query::is_anchored(
        #[trigger] told.edges[k],
        known,
    ) by {
        let i = lemma_edges_told(facts, facts.len(), k);
        assert(facts[i] is Edge);
        lemma_ids(facts, facts.len(), told.edges[k].from);
        lemma_ids(facts, facts.len(), told.edges[k].to);
    }
    lemma_none_dangle(told.edges, known, told.edges.len());
}

}
