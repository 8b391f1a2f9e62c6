//! Ids that survive a move.
//!
//! An id names a path and never a line. Code that moves about in its file, and
//! changes in nothing else, is the same graph: the same nodes, and the same
//! edges between them. Only the lines that are shown as evidence move along.

use vstd::prelude::*;

use crate::extract;
use crate::manifest::{PackageV, TargetV};
use crate::prepass::{self, FactsV, Found, ParsedV};
use crate::schema::{EdgeKind, EdgeV, EvidenceV, FactV, NodeV};
use crate::syntax::{
    self, Arg, Attr, BindingV, Expression, Field, Form, Function, Input, Part, Place, Prototype, Extent,
    Tree, TypeRef, Variant,
};
use crate::text::Text;
use crate::vfs::VfsV;
use crate::visit::{self, SiteV, State};
use crate::writer::LogV;

verus! {

// --- the same code, elsewhere ------------------------------------------------

/// The same attribute, wherever it stands.
pub open spec fn same_attr(a: Attr, b: Attr) -> bool {
    a.name == b.name && a.metas == b.metas
}

pub open spec fn same_attrs(a: Seq<Attr>, b: Seq<Attr>) -> bool {
    a.len() == b.len() && forall|i: int| 0 <= i < a.len() ==> same_attr(#[trigger] a[i], b[i])
}

pub open spec fn same_input(a: Input, b: Input) -> bool {
    match (a, b) {
        (Input::Receiver, Input::Receiver) => true,
        (Input::Typed { name, ty, .. }, Input::Typed { name: other, ty: of, .. }) => name == other
            && ty == of,
        _ => false,
    }
}

pub open spec fn same_signature(a: Prototype, b: Prototype) -> bool {
    &&& a.inputs@.len() == b.inputs@.len()
    &&& forall|i: int|
        0 <= i < a.inputs@.len() ==> same_input(#[trigger] a.inputs@[i], b.inputs@[i])
    &&& match (a.output, b.output) {
        (None, None) => true,
        (Some((ty, _)), Some((of, _))) => ty == of,
        _ => false,
    }
}

pub open spec fn same_fields(a: Seq<Field>, b: Seq<Field>) -> bool {
    &&& a.len() == b.len()
    &&& forall|i: int|
        0 <= i < a.len() ==> (#[trigger] a[i]).name == b[i].name && a[i].ty == b[i].ty
}

pub open spec fn same_variants(a: Seq<Variant>, b: Seq<Variant>) -> bool {
    &&& a.len() == b.len()
    &&& forall|i: int|
        0 <= i < a.len() ==> (#[trigger] a[i]).name == b[i].name && same_fields(
            a[i].fields@,
            b[i].fields@,
        )
}

pub open spec fn same_function(a: Function, b: Function) -> bool {
    &&& a.method == b.method
    &&& a.name == b.name
    &&& a.is_unsafe == b.is_unsafe
    &&& a.body == b.body
    &&& a.tokens == b.tokens
    &&& same_attrs(a.attrs@, b.attrs@)
    &&& same_signature(a.signature, b.signature)
}

/// The same place, wherever it stands.
pub open spec fn same_place(a: Place, b: Place) -> bool {
    match (a, b) {
        (Place::Fn(f), Place::Fn(g)) => same_function(f, g),
        (Place::Struct { name, fields, .. }, Place::Struct { name: n, fields: f, .. }) => name == n
            && same_fields(fields@, f@),
        (Place::Enum { name, variants, .. }, Place::Enum { name: n, variants: v, .. }) => name == n
            && same_variants(variants@, v@),
        (Place::Trait { name, .. }, Place::Trait { name: n, .. }) => name == n,
        (Place::Const { name, value, .. }, Place::Const { name: n, value: v, .. }) => name == n
            && value == v,
        (
            Place::Global { name, mutable, value, .. },
            Place::Global { name: n, mutable: m, value: v, .. },
        ) => name == n && mutable == m && value == v,
        (
            Place::Impl { ty, of_trait, is_unsafe, .. },
            Place::Impl { ty: t, of_trait: o, is_unsafe: u, .. },
        ) => ty == t && of_trait == o && is_unsafe == u,
        (Place::Alias { name, ty }, Place::Alias { name: n, ty: t }) => name == n && ty == t,
        (Place::Mod { name, attrs }, Place::Mod { name: n, attrs: at }) => name == n && same_attrs(
            attrs@,
            at@,
        ),
        (Place::Use { tree, .. }, Place::Use { tree: t, .. }) => tree == t,
        (Place::Local { pattern, init, .. }, Place::Local { pattern: p, init: i, .. }) => pattern
            == p && init == i,
        (Place::Match { arms, .. }, Place::Match { arms: ar, .. }) => arms == ar,
        (Place::Unsafe { .. }, Place::Unsafe { .. }) => true,
        (Place::Call { func, args, .. }, Place::Call { func: f, args: ar, .. }) => func == f && args
            == ar,
        (Place::Method { name, args, .. }, Place::Method { name: n, args: ar, .. }) => name == n
            && args == ar,
        (Place::Macro { name, given, .. }, Place::Macro { name: n, given: g, .. }) => name == n
            && given == g,
        _ => false,
    }
}

/// The same code, wherever its parts stand.
pub open spec fn same_part(a: Part, b: Part) -> bool
    decreases a, 0nat,
{
    &&& same_place(a.place, b.place)
    &&& same_parts(a.handed@, b.handed@, a.handed@.len())
    &&& same_parts(a.parts@, b.parts@, a.parts@.len())
    &&& a.handed@.len() == b.handed@.len()
    &&& a.parts@.len() == b.parts@.len()
}

pub open spec fn same_parts(a: Seq<Part>, b: Seq<Part>, n: nat) -> bool
    decreases a, n,
{
    n == 0 || n > a.len() || (same_part(a[n - 1], b[n - 1]) && same_parts(a, b, (n - 1) as nat))
}

pub open spec fn same_tree(a: Tree, b: Tree) -> bool {
    &&& same_attrs(a.attrs@, b.attrs@)
    &&& a.parts@.len() == b.parts@.len()
    &&& same_parts(a.parts@, b.parts@, a.parts@.len())
}

/// The same file, wherever things stand in it.
pub open spec fn same_file(a: ParsedV, b: ParsedV) -> bool {
    &&& a.rel_path == b.rel_path
    &&& a.test_role == b.test_role
    &&& a.module_prefix == b.module_prefix
    &&& same_tree(a.parsed, b.parsed)
}

pub open spec fn same_files(a: Seq<ParsedV>, b: Seq<ParsedV>) -> bool {
    a.len() == b.len() && forall|i: int| 0 <= i < a.len() ==> same_file(#[trigger] a[i], b[i])
}

pub open spec fn same_packages(a: Seq<Seq<ParsedV>>, b: Seq<Seq<ParsedV>>) -> bool {
    a.len() == b.len() && forall|i: int| 0 <= i < a.len() ==> same_files(#[trigger] a[i], b[i])
}

// --- the same graph ----------------------------------------------------------

/// Facts that say the same of the graph: a node of the same id and kind, or an
/// edge of the same kind between the same two.
pub open spec fn same_fact(a: FactV, b: FactV) -> bool {
    match (a, b) {
        (FactV::Header { .. }, FactV::Header { .. }) => true,
        (FactV::Node(n), FactV::Node(m)) => n.id == m.id && n.kind == m.kind,
        (FactV::Edge(e), FactV::Edge(f)) => e.kind == f.kind && e.from == f.from && e.to == f.to,
        _ => false,
    }
}

/// Streams that describe the same graph, fact by fact.
#[verifier::opaque]
pub open spec fn same_graph(a: LogV, b: LogV) -> bool {
    &&& a.seen == b.seen
    &&& a.facts.len() == b.facts.len()
    &&& forall|i: int| 0 <= i < a.facts.len() ==> same_fact(#[trigger] a.facts[i], b.facts[i])
}

broadcast proof fn lemma_same_node(a: LogV, b: LogV, n: NodeV, m: NodeV)
    requires
        same_graph(a, b),
        n.id == m.id,
        n.kind == m.kind,
    ensures
        #[trigger] same_graph(a.node(n), b.node(m)),
{
    reveal(same_graph);
    let (x, y) = (a.node(n), b.node(m));
    assert forall|i: int| 0 <= i < x.facts.len() implies same_fact(
        #[trigger] x.facts[i],
        y.facts[i],
    ) by {
        if i < a.facts.len() {
            assert(x.facts[i] == a.facts[i] && y.facts[i] == b.facts[i]);
        }
    }
}

broadcast proof fn lemma_same_edge(a: LogV, b: LogV, e: EdgeV, f: EdgeV)
    requires
        same_graph(a, b),
        e.kind == f.kind,
        e.from == f.from,
        e.to == f.to,
    ensures
        #[trigger] same_graph(a.edge(e), b.edge(f)),
{
    reveal(same_graph);
    let (x, y) = (a.edge(e), b.edge(f));
    assert forall|i: int| 0 <= i < x.facts.len() implies same_fact(
        #[trigger] x.facts[i],
        y.facts[i],
    ) by {
        if i < a.facts.len() {
            assert(x.facts[i] == a.facts[i] && y.facts[i] == b.facts[i]);
        }
    }
}

// --- what is gathered --------------------------------------------------------

proof fn lemma_found_in(found: Found, owner: Option<Text>, a: Part, b: Part)
    requires
        same_part(a, b),
    ensures
        prepass::found_in(found, owner, a) == prepass::found_in(found, owner, b),
    decreases a, 0nat,
{
    assert(prepass::found_at(found, owner, a.place) == prepass::found_at(found, owner, b.place));
    assert(prepass::opens(a.place) == prepass::opens(b.place));
    assert(prepass::owner_in(owner, a.place) == prepass::owner_in(owner, b.place));
    lemma_found_all(
        prepass::found_at(found, owner, a.place),
        prepass::owner_in(owner, a.place),
        a.parts@,
        b.parts@,
        a.parts@.len(),
    );
}

proof fn lemma_found_all(found: Found, owner: Option<Text>, a: Seq<Part>, b: Seq<Part>, n: nat)
    requires
        a.len() == b.len(),
        same_parts(a, b, n),
    ensures
        prepass::found_all(found, owner, a, n) == prepass::found_all(found, owner, b, n),
    decreases a, n,
{
    if n > 0 && n <= a.len() {
        lemma_found_all(found, owner, a, b, (n - 1) as nat);
        lemma_found_in(
            prepass::found_all(found, owner, a, (n - 1) as nat),
            owner,
            a[n - 1],
            b[n - 1],
        );
    }
}

proof fn lemma_files_gathered(facts: FactsV, a: Seq<ParsedV>, b: Seq<ParsedV>, n: nat)
    requires
        same_files(a, b),
        n <= a.len(),
    ensures
        facts.files(a, n) == facts.files(b, n),
    decreases n,
{
    if n > 0 {
        lemma_files_gathered(facts, a, b, (n - 1) as nat);
        assert(same_file(a[n - 1], b[n - 1]));
        let before = facts.files(a, (n - 1) as nat);
        let (x, y) = (a[n - 1].parsed.parts@, b[n - 1].parsed.parts@);
        lemma_found_all(Found { held: before.held, renamed: seq![] }, None, x, y, x.len());
    }
}

proof fn lemma_gathered(facts: FactsV, a: Seq<Seq<ParsedV>>, b: Seq<Seq<ParsedV>>, n: nat)
    requires
        same_packages(a, b),
        n <= a.len(),
    ensures
        facts.packages(a, n) == facts.packages(b, n),
    decreases n,
{
    if n > 0 {
        lemma_gathered(facts, a, b, (n - 1) as nat);
        assert(same_files(a[n - 1], b[n - 1]));
        lemma_files_gathered(
            facts.packages(a, (n - 1) as nat),
            a[n - 1],
            b[n - 1],
            a[n - 1].len(),
        );
    }
}

// --- one file ----------------------------------------------------------------

broadcast proof fn lemma_symbol(
    a: LogV,
    b: LogV,
    site: SiteV,
    name: Text,
    kind: Text,
    here: Extent,
    there: Extent,
    tokens: Option<Text>,
)
    requires
        same_graph(a, b),
    ensures
        #[trigger] same_graph(
            visit::symbol(a, site, name, kind, here, tokens),
            visit::symbol(b, site, name, kind, there, tokens),
        ),
{
    broadcast use {lemma_same_node, lemma_same_edge};

}

proof fn lemma_typed(a: LogV, b: LogV, ty: TypeRef, here: EvidenceV, there: EvidenceV)
    requires
        same_graph(a, b),
    ensures
        same_graph(visit::typed(a, ty, here), visit::typed(b, ty, there)),
    decreases ty, 1nat,
{
    broadcast use lemma_same_node;

    let node = visit::type_node(ty);
    lemma_type_args(a.node(node), b.node(node), visit::type_id(ty), ty, here, there);
}

proof fn lemma_type_args(
    a: LogV,
    b: LogV,
    owner: Text,
    ty: TypeRef,
    here: EvidenceV,
    there: EvidenceV,
)
    requires
        same_graph(a, b),
    ensures
        same_graph(
            visit::type_args(a, owner, ty, here),
            visit::type_args(b, owner, ty, there),
        ),
    decreases ty, 0nat,
{
    broadcast use lemma_same_edge;

    match ty.form {
        Form::Reference(inner) => lemma_type_args(a, b, owner, *inner, here, there),
        Form::Paren(inner) => lemma_type_args(a, b, owner, *inner, here, there),
        Form::Slice(inner) => lemma_typed(a, b, *inner, here, there),
        Form::Array(inner) => lemma_typed(a, b, *inner, here, there),
        Form::Tuple(elems) => lemma_elem_args(
            a,
            b,
            owner,
            elems@,
            elems@.len(),
            here,
            there,
        ),
        Form::Path { args, .. } => lemma_path_args(
            a,
            b,
            owner,
            args@,
            args@.len(),
            here,
            there,
        ),
        Form::Other => {},
    }
}

proof fn lemma_elem_args(
    a: LogV,
    b: LogV,
    owner: Text,
    elems: Seq<TypeRef>,
    n: nat,
    here: EvidenceV,
    there: EvidenceV,
)
    requires
        same_graph(a, b),
    ensures
        same_graph(visit::elem_args(a, owner, elems, n, here), visit::elem_args(b, owner, elems, n, there)),
    decreases elems, n,
{
    broadcast use lemma_same_edge;

    if n > 0 && n <= elems.len() {
        lemma_elem_args(a, b, owner, elems, (n - 1) as nat, here, there);
        lemma_typed(
            visit::elem_args(a, owner, elems, (n - 1) as nat, here),
            visit::elem_args(b, owner, elems, (n - 1) as nat, there),
            elems[n - 1],
            here,
            there,
        );
    }
}

proof fn lemma_path_args(
    a: LogV,
    b: LogV,
    owner: Text,
    args: Seq<Arg>,
    n: nat,
    here: EvidenceV,
    there: EvidenceV,
)
    requires
        same_graph(a, b),
    ensures
        same_graph(visit::path_args(a, owner, args, n, here), visit::path_args(b, owner, args, n, there)),
    decreases args, n,
{
    broadcast use lemma_same_edge;

    if n > 0 && n <= args.len() {
        lemma_path_args(a, b, owner, args, (n - 1) as nat, here, there);
        if let Arg::Type(inner) = args[n - 1] {
            lemma_typed(
                visit::path_args(a, owner, args, (n - 1) as nat, here),
                visit::path_args(b, owner, args, (n - 1) as nat, there),
                inner,
                here,
                there,
            );
        }
    }
}

proof fn lemma_params(
    a: LogV,
    b: LogV,
    site: SiteV,
    owner: Text,
    x: Seq<Input>,
    y: Seq<Input>,
    n: nat,
)
    requires
        same_graph(a, b),
        n <= x.len(),
        x.len() == y.len(),
        forall|i: int| 0 <= i < x.len() ==> same_input(#[trigger] x[i], y[i]),
    ensures
        same_graph(visit::params(a, site, owner, x, n), visit::params(b, site, owner, y, n)),
    decreases n,
{
    broadcast use lemma_same_edge;

    if n > 0 {
        lemma_params(a, b, site, owner, x, y, (n - 1) as nat);
        assert(same_input(x[n - 1], y[n - 1]));
        if let (Input::Typed { ty, span, .. }, Input::Typed { span: there, .. }) = (
            x[n - 1],
            y[n - 1],
        ) {
            lemma_typed(
                visit::params(a, site, owner, x, (n - 1) as nat),
                visit::params(b, site, owner, y, (n - 1) as nat),
                ty,
                site.evidence(span),
                site.evidence(there),
            );
        }
    }
}

proof fn lemma_signed(a: LogV, b: LogV, site: SiteV, owner: Text, x: Prototype, y: Prototype)
    requires
        same_graph(a, b),
        same_signature(x, y),
    ensures
        same_graph(visit::signed(a, site, owner, x), visit::signed(b, site, owner, y)),
{
    broadcast use lemma_same_edge;

    lemma_params(a, b, site, owner, x.inputs@, y.inputs@, x.inputs@.len());
    if let (Some((ty, span)), Some((_, there))) = (x.output, y.output) {
        lemma_typed(
            visit::params(a, site, owner, x.inputs@, x.inputs@.len()),
            visit::params(b, site, owner, y.inputs@, y.inputs@.len()),
            ty,
            site.evidence(span),
            site.evidence(there),
        );
    }
}

proof fn lemma_field_edges(
    a: LogV,
    b: LogV,
    site: SiteV,
    name: Text,
    x: Seq<Field>,
    y: Seq<Field>,
    n: nat,
)
    requires
        same_graph(a, b),
        same_fields(x, y),
        n <= x.len(),
    ensures
        same_graph(visit::field_edges(a, site, name, x, n), visit::field_edges(b, site, name, y, n)),
    decreases n,
{
    broadcast use lemma_same_edge;

    if n > 0 {
        lemma_field_edges(a, b, site, name, x, y, (n - 1) as nat);
        assert(x[n - 1].ty == y[n - 1].ty);
        lemma_typed(
            visit::field_edges(a, site, name, x, (n - 1) as nat),
            visit::field_edges(b, site, name, y, (n - 1) as nat),
            x[n - 1].ty,
            site.evidence(x[n - 1].span),
            site.evidence(y[n - 1].span),
        );
    }
}

proof fn lemma_shaped(
    a: LogV,
    b: LogV,
    site: SiteV,
    owner: Text,
    name: Text,
    x: Seq<Field>,
    y: Seq<Field>,
    here: Extent,
    there: Extent,
)
    requires
        same_graph(a, b),
        same_fields(x, y),
    ensures
        same_graph(
            visit::shaped(a, site, owner, name, x, here),
            visit::shaped(b, site, owner, name, y, there),
        ),
{
    broadcast use {lemma_same_node, lemma_same_edge};

    lemma_field_edges(
        visit::defined(a, owner, name, site.evidence(here)),
        visit::defined(b, owner, name, site.evidence(there)),
        site,
        name,
        x,
        y,
        x.len(),
    );
}

proof fn lemma_variants(
    a: LogV,
    b: LogV,
    site: SiteV,
    owner: Text,
    name: Text,
    x: Seq<Variant>,
    y: Seq<Variant>,
    here: Extent,
    there: Extent,
    n: nat,
)
    requires
        same_graph(a, b),
        same_variants(x, y),
        n <= x.len(),
    ensures
        same_graph(
            visit::variants_shaped(a, site, owner, name, x, here, n),
            visit::variants_shaped(b, site, owner, name, y, there, n),
        ),
    decreases n,
{
    if n > 0 {
        lemma_variants(a, b, site, owner, name, x, y, here, there, (n - 1) as nat);
        assert(x[n - 1].name == y[n - 1].name);
        lemma_shaped(
            visit::variants_shaped(a, site, owner, name, x, here, (n - 1) as nat),
            visit::variants_shaped(b, site, owner, name, y, there, (n - 1) as nat),
            site,
            owner,
            name + "::"@ + x[n - 1].name@,
            x[n - 1].fields@,
            y[n - 1].fields@,
            here,
            there,
        );
    }
}

broadcast proof fn lemma_capable(a: LogV, b: LogV, id: Text)
    requires
        same_graph(a, b),
    ensures
        #[trigger] same_graph(visit::capable(a, id), visit::capable(b, id)),
{
    broadcast use lemma_same_node;

}

broadcast proof fn lemma_unsafe_at(
    a: LogV,
    b: LogV,
    site: SiteV,
    owner: Text,
    form: Text,
    here: Extent,
    there: Extent,
)
    requires
        same_graph(a, b),
    ensures
        #[trigger] same_graph(
            visit::unsafe_at(a, site, owner, form, here),
            visit::unsafe_at(b, site, owner, form, there),
        ),
{
    broadcast use {lemma_capable, lemma_same_edge};

}

broadcast proof fn lemma_effect(
    a: LogV,
    b: LogV,
    site: SiteV,
    kind: EdgeKind,
    to: Text,
    op: Text,
    here: Extent,
    there: Extent,
    from: visit::ProvenanceV,
)
    requires
        same_graph(a, b),
    ensures
        #[trigger] same_graph(
            visit::effect(a, site, kind, to, op, here, from),
            visit::effect(b, site, kind, to, op, there, from),
        ),
{
    broadcast use {lemma_capable, lemma_same_edge};

}

broadcast proof fn lemma_calls(
    a: LogV,
    b: LogV,
    site: SiteV,
    name: Text,
    path: Text,
    form: Text,
    here: Extent,
    there: Extent,
)
    requires
        same_graph(a, b),
    ensures
        #[trigger] same_graph(
            visit::calls(a, site, name, path, form, here),
            visit::calls(b, site, name, path, form, there),
        ),
{
    broadcast use {lemma_same_node, lemma_same_edge};

}

proof fn lemma_call(
    a: LogV,
    b: LogV,
    site: SiteV,
    bindings: Seq<(Text, BindingV)>,
    func: Expression,
    args: Seq<Expression>,
    here: Extent,
    there: Extent,
)
    requires
        same_graph(a, b),
    ensures
        same_graph(
            visit::call(a, site, bindings, func, args, here),
            visit::call(b, site, bindings, func, args, there),
        ),
{
    broadcast use {lemma_calls, lemma_effect, lemma_same_node};

}

proof fn lemma_spawn_args(
    a: LogV,
    b: LogV,
    site: SiteV,
    bindings: Seq<(Text, BindingV)>,
    args: Seq<Expression>,
    here: Extent,
    there: Extent,
    n: nat,
)
    requires
        same_graph(a, b),
    ensures
        same_graph(
            visit::spawn_args(a, site, bindings, args, here, n),
            visit::spawn_args(b, site, bindings, args, there, n),
        ),
    decreases n,
{
    broadcast use {lemma_capable, lemma_same_edge};

    if n > 0 {
        lemma_spawn_args(a, b, site, bindings, args, here, there, (n - 1) as nat);
    }
}

proof fn lemma_method(
    a: LogV,
    b: LogV,
    site: SiteV,
    bindings: Seq<(Text, BindingV)>,
    name: Text,
    args: Seq<Expression>,
    here: Extent,
    there: Extent,
)
    requires
        same_graph(a, b),
    ensures
        same_graph(
            visit::method(a, site, bindings, name, args, here),
            visit::method(b, site, bindings, name, args, there),
        ),
{
    broadcast use lemma_calls;

    lemma_spawn_args(
        visit::calls(a, site, name, name, "method"@, here),
        visit::calls(b, site, name, name, "method"@, there),
        site,
        bindings,
        args,
        here,
        there,
        args.len(),
    );
}

proof fn lemma_lints(
    a: LogV,
    b: LogV,
    site: SiteV,
    owner: Text,
    x: Attr,
    y: Attr,
    form: Text,
    scope: Text,
    n: nat,
)
    requires
        same_graph(a, b),
        same_attr(x, y),
    ensures
        same_graph(
            visit::lints_silenced(a, site, owner, x, form, scope, n),
            visit::lints_silenced(b, site, owner, y, form, scope, n),
        ),
    decreases n,
{
    broadcast use lemma_same_edge;

    if n > 0 {
        lemma_lints(a, b, site, owner, x, y, form, scope, (n - 1) as nat);
    }
}

proof fn lemma_silenced(
    a: LogV,
    b: LogV,
    site: SiteV,
    owner: Text,
    x: Seq<Attr>,
    y: Seq<Attr>,
    scope: Text,
    n: nat,
)
    requires
        same_graph(a, b),
        same_attrs(x, y),
        n <= x.len(),
    ensures
        same_graph(
            visit::silenced(a, site, owner, x, scope, n),
            visit::silenced(b, site, owner, y, scope, n),
        ),
    decreases n,
{
    broadcast use lemma_capable;

    if n > 0 {
        lemma_silenced(a, b, site, owner, x, y, scope, (n - 1) as nat);
        assert(same_attr(x[n - 1], y[n - 1]));
        let lint = "cap:"@ + "lint"@;
        if let Some(form) = visit::silencing(x[n - 1]) {
            lemma_lints(
                visit::capable(visit::silenced(a, site, owner, x, scope, (n - 1) as nat), lint),
                visit::capable(visit::silenced(b, site, owner, y, scope, (n - 1) as nat), lint),
                site,
                owner,
                x[n - 1],
                y[n - 1],
                form,
                scope,
                x[n - 1].metas@.len(),
            );
        }
    }
}

proof fn lemma_imports(
    a: LogV,
    b: LogV,
    site: SiteV,
    leaves: Seq<Seq<Text>>,
    here: Extent,
    there: Extent,
    n: nat,
)
    requires
        same_graph(a, b),
    ensures
        same_graph(
            visit::imports(a, site, leaves, here, n),
            visit::imports(b, site, leaves, there, n),
        ),
    decreases n,
{
    broadcast use {lemma_same_node, lemma_same_edge};

    if n > 0 {
        lemma_imports(a, b, site, leaves, here, there, (n - 1) as nat);
    }
}

proof fn lemma_function(a: LogV, b: LogV, site: SiteV, f: Function, g: Function)
    requires
        same_graph(a, b),
        same_function(f, g),
    ensures
        same_graph(visit::function(a, site, f), visit::function(b, site, g)),
{
    broadcast use {lemma_symbol, lemma_unsafe_at};

    let id = site.symbol_id(f.name@);
    let kind = if f.method {
        "method"@
    } else {
        "fn"@
    };
    let a = visit::symbol(a, site, f.name@, kind, f.span, Some(f.tokens@));
    let b = visit::symbol(b, site, g.name@, kind, g.span, Some(g.tokens@));
    lemma_silenced(a, b, site, id, f.attrs@, g.attrs@, "item"@, f.attrs@.len());
    let a = visit::silenced(a, site, id, f.attrs@, "item"@, f.attrs@.len());
    let b = visit::silenced(b, site, id, g.attrs@, "item"@, g.attrs@.len());
    lemma_signed(a, b, site, id, f.signature, g.signature);
}

proof fn lemma_written(
    a: LogV,
    b: LogV,
    site: SiteV,
    bindings: Seq<(Text, BindingV)>,
    x: Place,
    y: Place,
)
    requires
        same_graph(a, b),
        same_place(x, y),
    ensures
        same_graph(
            visit::written(a, site, bindings, x),
            visit::written(b, site, bindings, y),
        ),
{
    broadcast use {
        lemma_symbol,
        lemma_unsafe_at,
        lemma_capable,
        lemma_same_node,
        lemma_same_edge,
    };

    match (x, y) {
        (Place::Fn(f), Place::Fn(g)) => lemma_function(a, b, site, f, g),
        (
            Place::Struct { name, fields, span },
            Place::Struct { name: n, fields: f, span: there },
        ) => lemma_shaped(
            visit::symbol(a, site, name@, "struct"@, span, None),
            visit::symbol(b, site, name@, "struct"@, there, None),
            site,
            site.symbol_id(name@),
            name@,
            fields@,
            f@,
            span,
            there,
        ),
        (
            Place::Enum { name, variants, span },
            Place::Enum { name: n, variants: v, span: there },
        ) => {
            let id = site.symbol_id(name@);
            let a = visit::symbol(a, site, name@, "enum"@, span, None);
            let b = visit::symbol(b, site, name@, "enum"@, there, None);
            lemma_variants(
                visit::defined(a, id, name@, site.evidence(span)),
                visit::defined(b, id, name@, site.evidence(there)),
                site,
                id,
                name@,
                variants@,
                v@,
                span,
                there,
                variants@.len(),
            );
        },
        (Place::Use { tree, span }, Place::Use { tree: t, span: there }) => {
            let leaves = syntax::leaves(tree, seq![], seq![]);
            lemma_imports(a, b, site, leaves, span, there, leaves.len());
        },
        (Place::Call { func, args, span }, Place::Call { func: f, args: ar, span: there }) => lemma_call(
            a,
            b,
            site,
            bindings,
            func,
            args@,
            span,
            there,
        ),
        (
            Place::Method { name, args, span },
            Place::Method { name: n, args: ar, span: there },
        ) => lemma_method(a, b, site, bindings, name@, args@, span, there),
        _ => {},
    }
}

proof fn lemma_inside(site: SiteV, x: Place, y: Place)
    requires
        same_place(x, y),
    ensures
        visit::inside(site, x) == visit::inside(site, y),
{
    if let (Place::Mod { name, attrs }, Place::Mod { name: n, attrs: at }) = (x, y) {
        assert forall|i: int| 0 <= i < attrs@.len() implies syntax::marks_test(
            #[trigger] attrs@[i],
        ) == syntax::marks_test(at@[i]) by {
            assert(same_attr(attrs@[i], at@[i]));
        }
        if syntax::any_marks_test(attrs@) {
            let i = choose|i: int| 0 <= i < attrs@.len() && syntax::marks_test(#[trigger] attrs@[i]);
            assert(syntax::marks_test(at@[i]));
        }
        if syntax::any_marks_test(at@) {
            let i = choose|i: int| 0 <= i < at@.len() && syntax::marks_test(#[trigger] at@[i]);
            assert(syntax::marks_test(attrs@[i]));
        }
    }
}

spec fn same_state(a: State, b: State) -> bool {
    a.bindings == b.bindings && same_graph(a.log, b.log)
}

proof fn lemma_visited(a: State, b: State, site: SiteV, x: Part, y: Part)
    requires
        same_state(a, b),
        same_part(x, y),
    ensures
        same_state(visit::visited(a, site, x), visit::visited(b, site, y)),
    decreases x, 0nat,
{
    lemma_written(a.log, b.log, site, a.bindings, x.place, y.place);
    lemma_inside(site, x.place, y.place);
    let la = visit::written(a.log, site, a.bindings, x.place);
    let lb = visit::written(b.log, site, b.bindings, y.place);
    let bindings = match x.place {
        Place::Local { pattern, init, .. } => visit::binding(a.bindings, pattern, init),
        _ => a.bindings,
    };
    let inner = visit::inside(site, x.place);
    let ha = State { log: la, bindings };
    let hb = State { log: lb, bindings };
    match x.place {
        Place::Fn(_) => lemma_visited_all(
            State { log: la, bindings: seq![] },
            State { log: lb, bindings: seq![] },
            inner,
            x.parts@,
            y.parts@,
            x.parts@.len(),
        ),
        Place::Macro { name, given, .. } => {
            if visit::looked_into(name@, given) {
                lemma_visited_all(ha, hb, site, x.handed@, y.handed@, x.handed@.len());
                lemma_visited_all(
                    visit::visited_all(ha, site, x.handed@, x.handed@.len()),
                    visit::visited_all(hb, site, y.handed@, y.handed@.len()),
                    inner,
                    x.parts@,
                    y.parts@,
                    x.parts@.len(),
                );
            } else {
                lemma_visited_all(ha, hb, inner, x.parts@, y.parts@, x.parts@.len());
            }
        },
        _ => lemma_visited_all(ha, hb, inner, x.parts@, y.parts@, x.parts@.len()),
    }
}

proof fn lemma_visited_all(a: State, b: State, site: SiteV, x: Seq<Part>, y: Seq<Part>, n: nat)
    requires
        same_state(a, b),
        x.len() == y.len(),
        same_parts(x, y, n),
    ensures
        same_state(visit::visited_all(a, site, x, n), visit::visited_all(b, site, y, n)),
    decreases x, n,
{
    if n > 0 && n <= x.len() {
        lemma_visited_all(a, b, site, x, y, (n - 1) as nat);
        lemma_visited(
            visit::visited_all(a, site, x, (n - 1) as nat),
            visit::visited_all(b, site, y, (n - 1) as nat),
            site,
            x[n - 1],
            y[n - 1],
        );
    }
}

proof fn lemma_file_visited(a: LogV, b: LogV, site: SiteV, x: Tree, y: Tree)
    requires
        same_graph(a, b),
        same_tree(x, y),
    ensures
        same_graph(visit::file_visited(a, site, x), visit::file_visited(b, site, y)),
{
    lemma_silenced(a, b, site, site.file_id, x.attrs@, y.attrs@, "crate"@, x.attrs@.len());
    lemma_visited_all(
        State {
            log: visit::silenced(a, site, site.file_id, x.attrs@, "crate"@, x.attrs@.len()),
            bindings: seq![],
        },
        State {
            log: visit::silenced(b, site, site.file_id, y.attrs@, "crate"@, y.attrs@.len()),
            bindings: seq![],
        },
        site,
        x.parts@,
        y.parts@,
        x.parts@.len(),
    );
}

// --- a workspace -------------------------------------------------------------

/// A workspace as it is read: the text of its files, and what was parsed.
pub struct Workspace {
    pub vfs: VfsV,
    pub files: Seq<Seq<ParsedV>>,
}

/// What is written for a workspace.
pub open spec fn written(w: Workspace, packages: Seq<PackageV>) -> LogV {
    extract::workspace_written(
        LogV::empty(),
        w.vfs,
        packages,
        w.files,
        FactsV::empty().packages(w.files, w.files.len()).followed(),
    )
}

proof fn lemma_files_written(
    a: LogV,
    b: LogV,
    here: VfsV,
    there: VfsV,
    package: Text,
    near: EvidenceV,
    far: EvidenceV,
    x: Seq<ParsedV>,
    y: Seq<ParsedV>,
    known: Seq<(Text, Text)>,
    facts: FactsV,
    n: nat,
)
    requires
        same_graph(a, b),
        same_files(x, y),
        n <= x.len(),
    ensures
        same_graph(
            extract::files_written(a, here, package, near, x, known, facts, n),
            extract::files_written(b, there, package, far, y, known, facts, n),
        ),
    decreases n,
{
    broadcast use {lemma_same_node, lemma_same_edge};

    if n > 0 {
        lemma_files_written(a, b, here, there, package, near, far, x, y, known, facts, (n - 1) as nat);
        let a = extract::files_written(a, here, package, near, x, known, facts, (n - 1) as nat);
        let b = extract::files_written(b, there, package, far, y, known, facts, (n - 1) as nat);
        let (f, g) = (x[n - 1], y[n - 1]);
        assert(same_file(f, g));
        let dir = "dir:"@ + extract::parent(f.rel_path);
        let above = extract::directory(dir, crate::text::shorn_start(dir, "dir:"@));
        let to_dir = EdgeV::new(EdgeKind::Contains, package, dir);
        let to_file = EdgeV::new(EdgeKind::Contains, dir, "file:"@ + f.rel_path);
        let path = f.rel_path;
        lemma_file_visited(
            a.node(above).edge(to_dir.evidence(near)).node(extract::file_node(here, f)).edge(
                to_file.evidence(extract::file_place(here, path)),
            ),
            b.node(above).edge(to_dir.evidence(far)).node(extract::file_node(there, g)).edge(
                to_file.evidence(extract::file_place(there, path)),
            ),
            visit::site_of(package, f, known, facts),
            f.parsed,
            g.parsed,
        );
    }
}

proof fn lemma_programs(
    a: LogV,
    b: LogV,
    package: Text,
    near: EvidenceV,
    far: EvidenceV,
    targets: Seq<TargetV>,
    n: nat,
)
    requires
        same_graph(a, b),
    ensures
        same_graph(
            extract::programs(a, package, near, targets, n),
            extract::programs(b, package, far, targets, n),
        ),
    decreases n,
{
    broadcast use {lemma_same_node, lemma_same_edge};

    if n > 0 {
        lemma_programs(a, b, package, near, far, targets, (n - 1) as nat);
    }
}

proof fn lemma_depends(
    a: LogV,
    b: LogV,
    here: VfsV,
    there: VfsV,
    package: PackageV,
    known: Seq<(Text, Text)>,
    n: nat,
)
    requires
        same_graph(a, b),
    ensures
        same_graph(
            extract::depends(a, here, package, known, n),
            extract::depends(b, there, package, known, n),
        ),
    decreases n,
{
    broadcast use {lemma_same_node, lemma_same_edge};

    if n > 0 {
        lemma_depends(a, b, here, there, package, known, (n - 1) as nat);
    }
}

proof fn lemma_files_for(
    packages: Seq<PackageV>,
    x: Seq<Seq<ParsedV>>,
    y: Seq<Seq<ParsedV>>,
    name: Text,
    i: nat,
)
    requires
        same_packages(x, y),
    ensures
        same_files(
            extract::files_for(packages, x, name, i),
            extract::files_for(packages, y, name, i),
        ),
    decreases packages.len() - i,
{
    if i < packages.len() && i < x.len() {
        assert(same_files(x[i as int], y[i as int]));
        if packages[i as int].name != name {
            lemma_files_for(packages, x, y, name, i + 1);
        }
    }
}

proof fn lemma_packages_written(
    a: LogV,
    b: LogV,
    here: Workspace,
    there: Workspace,
    packages: Seq<PackageV>,
    facts: FactsV,
    n: nat,
)
    requires
        same_graph(a, b),
        same_packages(here.files, there.files),
        n <= packages.len(),
    ensures
        same_graph(
            extract::packages_written(a, here.vfs, packages, here.files, facts, n),
            extract::packages_written(b, there.vfs, packages, there.files, facts, n),
        ),
    decreases n,
{
    broadcast use {lemma_same_node, lemma_same_edge};

    if n > 0 {
        lemma_packages_written(a, b, here, there, packages, facts, (n - 1) as nat);
        let a = extract::packages_written(
            a,
            here.vfs,
            packages,
            here.files,
            facts,
            (n - 1) as nat,
        );
        let b = extract::packages_written(
            b,
            there.vfs,
            packages,
            there.files,
            facts,
            (n - 1) as nat,
        );
        let package = packages[n - 1];
        let known = extract::known_of(packages, packages.len());
        let id = "pkg:"@ + package.name;
        let node = extract::package_node(package);
        let targets = package.targets;
        let near = extract::package_place(here.vfs, package.manifest_path);
        let far = extract::package_place(there.vfs, package.manifest_path);
        lemma_programs(a.node(node), b.node(node), id, near, far, targets, targets.len());
        let a = extract::programs(a.node(node), id, near, targets, targets.len());
        let b = extract::programs(b.node(node), id, far, targets, targets.len());
        let deps = package.dependencies.len();
        lemma_depends(a, b, here.vfs, there.vfs, package, known, deps);
        let a = extract::depends(a, here.vfs, package, known, deps);
        let b = extract::depends(b, there.vfs, package, known, deps);
        let dir = extract::parent(package.manifest_path);
        let above = extract::directory("dir:"@ + dir, dir);
        let to_dir = EdgeV::new(EdgeKind::Contains, id, "dir:"@ + dir);
        lemma_files_for(packages, here.files, there.files, package.name, 0);
        let x = extract::files_for(packages, here.files, package.name, 0);
        let y = extract::files_for(packages, there.files, package.name, 0);
        lemma_files_written(
            a.node(above).edge(to_dir.evidence(near)),
            b.node(above).edge(to_dir.evidence(far)),
            here.vfs,
            there.vfs,
            id,
            near,
            far,
            x,
            y,
            known,
            facts,
            x.len(),
        );
    }
}

/// Code that moves about in its files is the same graph: every node keeps its
/// id, and every edge runs between the same two, in the same order.
pub proof fn lemma_ids_survive_a_move(
    here: Workspace,
    there: Workspace,
    packages: Seq<PackageV>,
)
    requires
        same_packages(here.files, there.files),
    ensures
        ({
            let (a, b) = (written(here, packages), written(there, packages));
            &&& a.seen == b.seen
            &&& a.facts.len() == b.facts.len()
            &&& forall|i: int|
                0 <= i < a.facts.len() ==> same_fact(#[trigger] a.facts[i], b.facts[i])
        }),
{
    lemma_gathered(FactsV::empty(), here.files, there.files, here.files.len());
    let facts = FactsV::empty().packages(here.files, here.files.len()).followed();
    let a = LogV::empty().fact(FactV::header("rust"@, here.vfs.label));
    let b = LogV::empty().fact(FactV::header("rust"@, there.vfs.label));
    assert(same_graph(a, b)) by {
        reveal(same_graph);
    }
    lemma_packages_written(a, b, here, there, packages, facts, packages.len());
    reveal(same_graph);
}

}
