//! What a reading adds to a stream, whatever the stream held before.
//!
//! A file is written down from its own syntax and from what was gathered
//! beforehand, never from what was written before it. So files can be written
//! by different readers: together they say what one reader says. And whatever
//! is written, an edge that claims something about a program shows the lines
//! it was read from.

use vstd::prelude::*;

use crate::extract;
use crate::manifest::{PackageV, TargetV};
use crate::pieces;
use crate::prepass::{self, FactsV, Found, SharedV, ParsedV};
use crate::table;
use crate::schema::{self, EdgeKind, EdgeV, EvidenceV, FactV, NodeV};
use crate::syntax::{
    self, Arg, Attr, BindingV, Expression, Field, Form, Function, Input, Part, Place,
    Prototype, Extent, Tree, TypeRef, Variant,
};
use crate::text::{self, Text};
use crate::vfs::VfsV;
use crate::visit::{self, SiteV, State};
use crate::writer::LogV;

verus! {

broadcast use schema::lemma_path_shown;

/// One thing that a stream says: that there is a node, or an edge.
pub enum Said {
    Node(Text),
    Edge(EdgeV),
}

/// Everything that has been written, in whatever order.
pub open spec fn content(log: LogV) -> Set<Said> {
    Set::new(
        |s: Said|
            match s {
                Said::Node(id) => log.seen.contains(id),
                Said::Edge(e) => log.facts.contains(FactV::Edge(e)),
            },
    )
}

/// Whether an edge shows where it was read: at some place, and at lines of it
/// wherever it does.
pub open spec fn vouched(e: EdgeV) -> bool {
    &&& e.ev.len() > 0
    &&& forall|k: int| 0 <= k < e.ev.len() ==> schema::is_shown(#[trigger] e.ev[k])
}

/// Whether every edge shows where it was read.
pub open spec fn grounded(log: LogV) -> bool {
    forall|i: int|
        0 <= i < log.facts.len() && log.facts[i] is Edge ==> vouched(
            (#[trigger] log.facts[i])->Edge_0,
        )
}

/// The line that declares something is a line.
proof fn lemma_line_from(lines: Seq<Text>, dep: Text, i: nat)
    ensures
        match extract::line_from(lines, dep, i) {
            Some(n) => n >= 1,
            None => true,
        },
    decreases lines.len() - i,
{
    if i < lines.len() && !extract::declares(lines[i as int], dep) {
        lemma_line_from(lines, dep, i + 1);
    }
}

broadcast proof fn lemma_declared_at(source: Text, dep: Text)
    ensures
        1 <= #[trigger] extract::declared_at(source, dep),
{
    lemma_line_from(text::lines_of(source), dep, 0);
}

/// Two streams that were written alike, one from nothing and one from a base.
#[verifier::opaque]
spec fn alike(base: LogV, apart: LogV, on: LogV) -> bool {
    &&& content(on) == content(base).union(content(apart))
    &&& grounded(apart)
    &&& grounded(base) ==> grounded(on)
}

proof fn lemma_content_node(log: LogV, node: NodeV)
    ensures
        content(log.node(node)) == content(log).insert(Said::Node(node.id)),
        grounded(log) ==> grounded(log.node(node)),
{
    let after = log.node(node);
    assert forall|s: Said| #[trigger] content(after).contains(s) == content(log).insert(
        Said::Node(node.id),
    ).contains(s) by {
        if let Said::Edge(e) = s {
            lemma_push_other(log.facts, FactV::Node(node), FactV::Edge(e));
        }
    }
    assert(content(after) =~= content(log).insert(Said::Node(node.id)));
    if grounded(log) {
        assert forall|i: int| 0 <= i < after.facts.len() && after.facts[i] is Edge implies vouched(
            (#[trigger] after.facts[i])->Edge_0,
        ) by {
            assert(after.facts[i] == log.facts[i]);
        }
    }
}

proof fn lemma_push_other(facts: Seq<FactV>, last: FactV, fact: FactV)
    ensures
        facts.push(last).contains(fact) == (facts.contains(fact) || last == fact),
{
    let after = facts.push(last);
    if facts.contains(fact) {
        let i = choose|i: int| 0 <= i < facts.len() && facts[i] == fact;
        assert(after[i] == fact);
    }
    if last == fact {
        assert(after[facts.len() as int] == fact);
    }
    if after.contains(fact) {
        let i = choose|i: int| 0 <= i < after.len() && after[i] == fact;
        if i < facts.len() {
            assert(facts[i] == fact);
        }
    }
}

proof fn lemma_content_edge(log: LogV, edge: EdgeV)
    ensures
        content(log.edge(edge)) == content(log).insert(Said::Edge(edge)),
        grounded(log) && vouched(edge) ==> grounded(log.edge(edge)),
{
    let after = log.edge(edge);
    assert forall|s: Said| #[trigger] content(after).contains(s) == content(log).insert(
        Said::Edge(edge),
    ).contains(s) by {
        if let Said::Edge(e) = s {
            lemma_push_other(log.facts, FactV::Edge(edge), FactV::Edge(e));
        }
    }
    assert(content(after) =~= content(log).insert(Said::Edge(edge)));
    if grounded(log) && vouched(edge) {
        assert forall|i: int| 0 <= i < after.facts.len() && after.facts[i] is Edge implies vouched(
            (#[trigger] after.facts[i])->Edge_0,
        ) by {
            if i < log.facts.len() {
                assert(after.facts[i] == log.facts[i]);
            }
        }
    }
}

broadcast proof fn lemma_alike_node(base: LogV, apart: LogV, on: LogV, node: NodeV)
    requires
        alike(base, apart, on),
    ensures
        #[trigger] alike(base, apart.node(node), on.node(node)),
{
    reveal(alike);
    lemma_content_node(apart, node);
    lemma_content_node(on, node);
    assert(content(on.node(node)) =~= content(base).union(content(apart.node(node))));
}

broadcast proof fn lemma_alike_edge(base: LogV, apart: LogV, on: LogV, edge: EdgeV)
    requires
        alike(base, apart, on),
        vouched(edge),
    ensures
        #[trigger] alike(base, apart.edge(edge), on.edge(edge)),
{
    reveal(alike);
    lemma_content_edge(apart, edge);
    lemma_content_edge(on, edge);
    assert(content(on.edge(edge)) =~= content(base).union(content(apart.edge(edge))));
}

proof fn lemma_alike_start(base: LogV)
    ensures
        alike(base, LogV::empty(), base),
{
    reveal(alike);
    assert(content(base) =~= content(base).union(content(LogV::empty())));
}

// --- one file ----------------------------------------------------------------

broadcast proof fn lemma_symbol(
    base: LogV,
    a: LogV,
    o: LogV,
    site: SiteV,
    name: Text,
    kind: Text,
    span: Extent,
    tokens: Option<Text>,
)
    requires
        alike(base, a, o),
    ensures
        #[trigger] alike(
            base,
            visit::symbol(a, site, name, kind, span, tokens),
            visit::symbol(o, site, name, kind, span, tokens),
        ),
{
    broadcast use {lemma_alike_node, lemma_alike_edge};

}

proof fn lemma_typed(base: LogV, a: LogV, o: LogV, ty: TypeRef, ev: EvidenceV)
    requires
        alike(base, a, o),
        schema::is_shown(ev),
    ensures
        alike(base, visit::typed(a, ty, ev), visit::typed(o, ty, ev)),
    decreases ty, 1nat,
{
    broadcast use lemma_alike_node;

    let node = visit::type_node(ty);
    lemma_type_args(base, a.node(node), o.node(node), visit::type_id(ty), ty, ev);
}

proof fn lemma_type_args(base: LogV, a: LogV, o: LogV, owner: Text, ty: TypeRef, ev: EvidenceV)
    requires
        alike(base, a, o),
        schema::is_shown(ev),
    ensures
        alike(base, visit::type_args(a, owner, ty, ev), visit::type_args(o, owner, ty, ev)),
    decreases ty, 0nat,
{
    broadcast use lemma_alike_edge;

    match ty.form {
        Form::Reference(inner) => lemma_type_args(base, a, o, owner, *inner, ev),
        Form::Paren(inner) => lemma_type_args(base, a, o, owner, *inner, ev),
        Form::Slice(inner) => lemma_typed(base, a, o, *inner, ev),
        Form::Array(inner) => lemma_typed(base, a, o, *inner, ev),
        Form::Tuple(elems) => lemma_elem_args(base, a, o, owner, elems@, elems@.len(), ev),
        Form::Path { args, .. } => lemma_path_args(base, a, o, owner, args@, args@.len(), ev),
        Form::Other => {},
    }
}

proof fn lemma_elem_args(base: LogV, a: LogV, o: LogV, owner: Text, elems: Seq<TypeRef>, n: nat, ev: EvidenceV)
    requires
        alike(base, a, o),
        schema::is_shown(ev),
    ensures
        alike(base, visit::elem_args(a, owner, elems, n, ev), visit::elem_args(o, owner, elems, n, ev)),
    decreases elems, n,
{
    broadcast use lemma_alike_edge;

    if n > 0 && n <= elems.len() {
        lemma_elem_args(base, a, o, owner, elems, (n - 1) as nat, ev);
        lemma_typed(
            base,
            visit::elem_args(a, owner, elems, (n - 1) as nat, ev),
            visit::elem_args(o, owner, elems, (n - 1) as nat, ev),
            elems[n - 1],
            ev,
        );
    }
}

proof fn lemma_path_args(base: LogV, a: LogV, o: LogV, owner: Text, args: Seq<Arg>, n: nat, ev: EvidenceV)
    requires
        alike(base, a, o),
        schema::is_shown(ev),
    ensures
        alike(base, visit::path_args(a, owner, args, n, ev), visit::path_args(o, owner, args, n, ev)),
    decreases args, n,
{
    broadcast use lemma_alike_edge;

    if n > 0 && n <= args.len() {
        lemma_path_args(base, a, o, owner, args, (n - 1) as nat, ev);
        if let Arg::Type(inner) = args[n - 1] {
            lemma_typed(
                base,
                visit::path_args(a, owner, args, (n - 1) as nat, ev),
                visit::path_args(o, owner, args, (n - 1) as nat, ev),
                inner,
                ev,
            );
        }
    }
}

proof fn lemma_params(
    base: LogV,
    a: LogV,
    o: LogV,
    site: SiteV,
    owner: Text,
    inputs: Seq<Input>,
    n: nat,
)
    requires
        alike(base, a, o),
    ensures
        alike(
            base,
            visit::params(a, site, owner, inputs, n),
            visit::params(o, site, owner, inputs, n),
        ),
    decreases n,
{
    broadcast use lemma_alike_edge;

    if n > 0 {
        lemma_params(base, a, o, site, owner, inputs, (n - 1) as nat);
        if let Input::Typed { name, ty, span } = inputs[n - 1] {
            lemma_typed(
                base,
                visit::params(a, site, owner, inputs, (n - 1) as nat),
                visit::params(o, site, owner, inputs, (n - 1) as nat),
                ty,
                site.evidence(span),
            );
        }
    }
}

proof fn lemma_signed(
    base: LogV,
    a: LogV,
    o: LogV,
    site: SiteV,
    owner: Text,
    signature: Prototype,
)
    requires
        alike(base, a, o),
    ensures
        alike(
            base,
            visit::signed(a, site, owner, signature),
            visit::signed(o, site, owner, signature),
        ),
{
    broadcast use lemma_alike_edge;

    let (inputs, n) = (signature.inputs@, signature.inputs@.len());
    lemma_params(base, a, o, site, owner, inputs, n);
    if let Some((ty, span)) = signature.output {
        lemma_typed(
            base,
            visit::params(a, site, owner, inputs, n),
            visit::params(o, site, owner, inputs, n),
            ty,
            site.evidence(span),
        );
    }
}

proof fn lemma_field_edges(
    base: LogV,
    a: LogV,
    o: LogV,
    site: SiteV,
    name: Text,
    fields: Seq<Field>,
    n: nat,
)
    requires
        alike(base, a, o),
    ensures
        alike(
            base,
            visit::field_edges(a, site, name, fields, n),
            visit::field_edges(o, site, name, fields, n),
        ),
    decreases n,
{
    broadcast use lemma_alike_edge;

    if n > 0 {
        lemma_field_edges(base, a, o, site, name, fields, (n - 1) as nat);
        lemma_typed(
            base,
            visit::field_edges(a, site, name, fields, (n - 1) as nat),
            visit::field_edges(o, site, name, fields, (n - 1) as nat),
            fields[n - 1].ty,
            site.evidence(fields[n - 1].span),
        );
    }
}

proof fn lemma_shaped(
    base: LogV,
    a: LogV,
    o: LogV,
    site: SiteV,
    owner: Text,
    name: Text,
    fields: Seq<Field>,
    span: Extent,
)
    requires
        alike(base, a, o),
    ensures
        alike(
            base,
            visit::shaped(a, site, owner, name, fields, span),
            visit::shaped(o, site, owner, name, fields, span),
        ),
{
    broadcast use {lemma_alike_node, lemma_alike_edge};

    lemma_field_edges(
        base,
        visit::defined(a, owner, name, site.evidence(span)),
        visit::defined(o, owner, name, site.evidence(span)),
        site,
        name,
        fields,
        fields.len(),
    );
}

proof fn lemma_variants(
    base: LogV,
    a: LogV,
    o: LogV,
    site: SiteV,
    owner: Text,
    name: Text,
    variants: Seq<Variant>,
    span: Extent,
    n: nat,
)
    requires
        alike(base, a, o),
    ensures
        alike(
            base,
            visit::variants_shaped(a, site, owner, name, variants, span, n),
            visit::variants_shaped(o, site, owner, name, variants, span, n),
        ),
    decreases n,
{
    if n > 0 {
        lemma_variants(base, a, o, site, owner, name, variants, span, (n - 1) as nat);
        lemma_shaped(
            base,
            visit::variants_shaped(a, site, owner, name, variants, span, (n - 1) as nat),
            visit::variants_shaped(o, site, owner, name, variants, span, (n - 1) as nat),
            site,
            owner,
            name + "::"@ + variants[n - 1].name@,
            variants[n - 1].fields@,
            span,
        );
    }
}

broadcast proof fn lemma_capable(base: LogV, a: LogV, o: LogV, id: Text)
    requires
        alike(base, a, o),
    ensures
        #[trigger] alike(base, visit::capable(a, id), visit::capable(o, id)),
{
    broadcast use lemma_alike_node;

}

broadcast proof fn lemma_unsafe_at(
    base: LogV,
    a: LogV,
    o: LogV,
    site: SiteV,
    owner: Text,
    form: Text,
    span: Extent,
)
    requires
        alike(base, a, o),
    ensures
        #[trigger] alike(
            base,
            visit::unsafe_at(a, site, owner, form, span),
            visit::unsafe_at(o, site, owner, form, span),
        ),
{
    broadcast use {lemma_capable, lemma_alike_edge};

}

broadcast proof fn lemma_effect(
    base: LogV,
    a: LogV,
    o: LogV,
    site: SiteV,
    kind: EdgeKind,
    to: Text,
    op: Text,
    span: Extent,
    from: visit::ProvenanceV,
)
    requires
        alike(base, a, o),
    ensures
        #[trigger] alike(
            base,
            visit::effect(a, site, kind, to, op, span, from),
            visit::effect(o, site, kind, to, op, span, from),
        ),
{
    broadcast use {lemma_capable, lemma_alike_edge};

}

broadcast proof fn lemma_calls(
    base: LogV,
    a: LogV,
    o: LogV,
    site: SiteV,
    name: Text,
    path: Text,
    form: Text,
    span: Extent,
)
    requires
        alike(base, a, o),
    ensures
        #[trigger] alike(
            base,
            visit::calls(a, site, name, path, form, span),
            visit::calls(o, site, name, path, form, span),
        ),
{
    broadcast use {lemma_alike_node, lemma_alike_edge};

}

proof fn lemma_call(
    base: LogV,
    a: LogV,
    o: LogV,
    site: SiteV,
    bindings: Seq<(Text, BindingV)>,
    func: Expression,
    args: Seq<Expression>,
    span: Extent,
)
    requires
        alike(base, a, o),
    ensures
        alike(
            base,
            visit::call(a, site, bindings, func, args, span),
            visit::call(o, site, bindings, func, args, span),
        ),
{
    broadcast use {lemma_calls, lemma_effect, lemma_alike_node};

}

proof fn lemma_spawn_args(
    base: LogV,
    a: LogV,
    o: LogV,
    site: SiteV,
    bindings: Seq<(Text, BindingV)>,
    args: Seq<Expression>,
    span: Extent,
    n: nat,
)
    requires
        alike(base, a, o),
    ensures
        alike(
            base,
            visit::spawn_args(a, site, bindings, args, span, n),
            visit::spawn_args(o, site, bindings, args, span, n),
        ),
    decreases n,
{
    broadcast use {lemma_capable, lemma_alike_edge};

    if n > 0 {
        lemma_spawn_args(base, a, o, site, bindings, args, span, (n - 1) as nat);
    }
}

proof fn lemma_method(
    base: LogV,
    a: LogV,
    o: LogV,
    site: SiteV,
    bindings: Seq<(Text, BindingV)>,
    name: Text,
    args: Seq<Expression>,
    span: Extent,
)
    requires
        alike(base, a, o),
    ensures
        alike(
            base,
            visit::method(a, site, bindings, name, args, span),
            visit::method(o, site, bindings, name, args, span),
        ),
{
    broadcast use lemma_calls;

    let a = visit::calls(a, site, name, name, "method"@, span);
    let o = visit::calls(o, site, name, name, "method"@, span);
    lemma_spawn_args(base, a, o, site, bindings, args, span, args.len());
}

proof fn lemma_lints(
    base: LogV,
    a: LogV,
    o: LogV,
    site: SiteV,
    owner: Text,
    attr: Attr,
    form: Text,
    scope: Text,
    n: nat,
)
    requires
        alike(base, a, o),
    ensures
        alike(
            base,
            visit::lints_silenced(a, site, owner, attr, form, scope, n),
            visit::lints_silenced(o, site, owner, attr, form, scope, n),
        ),
    decreases n,
{
    broadcast use lemma_alike_edge;

    if n > 0 {
        lemma_lints(base, a, o, site, owner, attr, form, scope, (n - 1) as nat);
    }
}

proof fn lemma_silenced(
    base: LogV,
    a: LogV,
    o: LogV,
    site: SiteV,
    owner: Text,
    attrs: Seq<Attr>,
    scope: Text,
    n: nat,
)
    requires
        alike(base, a, o),
    ensures
        alike(
            base,
            visit::silenced(a, site, owner, attrs, scope, n),
            visit::silenced(o, site, owner, attrs, scope, n),
        ),
    decreases n,
{
    broadcast use lemma_capable;

    if n > 0 {
        lemma_silenced(base, a, o, site, owner, attrs, scope, (n - 1) as nat);
        if let Some(form) = visit::silencing(attrs[n - 1]) {
            lemma_lints(
                base,
                visit::capable(
                    visit::silenced(a, site, owner, attrs, scope, (n - 1) as nat),
                    "cap:"@ + "lint"@,
                ),
                visit::capable(
                    visit::silenced(o, site, owner, attrs, scope, (n - 1) as nat),
                    "cap:"@ + "lint"@,
                ),
                site,
                owner,
                attrs[n - 1],
                form,
                scope,
                attrs[n - 1].metas@.len(),
            );
        }
    }
}

proof fn lemma_imports(
    base: LogV,
    a: LogV,
    o: LogV,
    site: SiteV,
    leaves: Seq<Seq<Text>>,
    span: Extent,
    n: nat,
)
    requires
        alike(base, a, o),
    ensures
        alike(
            base,
            visit::imports(a, site, leaves, span, n),
            visit::imports(o, site, leaves, span, n),
        ),
    decreases n,
{
    broadcast use {lemma_alike_node, lemma_alike_edge};

    if n > 0 {
        lemma_imports(base, a, o, site, leaves, span, (n - 1) as nat);
    }
}

proof fn lemma_function(base: LogV, a: LogV, o: LogV, site: SiteV, f: Function)
    requires
        alike(base, a, o),
    ensures
        alike(base, visit::function(a, site, f), visit::function(o, site, f)),
{
    broadcast use {lemma_symbol, lemma_unsafe_at};

    let id = site.symbol_id(f.name@);
    let kind = if f.method {
        "method"@
    } else {
        "fn"@
    };
    let a = visit::symbol(a, site, f.name@, kind, f.span, Some(f.tokens@));
    let o = visit::symbol(o, site, f.name@, kind, f.span, Some(f.tokens@));
    lemma_silenced(base, a, o, site, id, f.attrs@, "item"@, f.attrs@.len());
    let a = visit::silenced(a, site, id, f.attrs@, "item"@, f.attrs@.len());
    let o = visit::silenced(o, site, id, f.attrs@, "item"@, f.attrs@.len());
    lemma_signed(base, a, o, site, id, f.signature);
}

proof fn lemma_written(
    base: LogV,
    a: LogV,
    o: LogV,
    site: SiteV,
    bindings: Seq<(Text, BindingV)>,
    place: Place,
)
    requires
        alike(base, a, o),
    ensures
        alike(
            base,
            visit::written(a, site, bindings, place),
            visit::written(o, site, bindings, place),
        ),
{
    broadcast use {
        lemma_symbol,
        lemma_unsafe_at,
        lemma_capable,
        lemma_alike_node,
        lemma_alike_edge,
    };

    match place {
        Place::Fn(f) => lemma_function(base, a, o, site, f),
        Place::Struct { name, fields, span } => lemma_shaped(
            base,
            visit::symbol(a, site, name@, "struct"@, span, None),
            visit::symbol(o, site, name@, "struct"@, span, None),
            site,
            site.symbol_id(name@),
            name@,
            fields@,
            span,
        ),
        Place::Enum { name, variants, span } => {
            let id = site.symbol_id(name@);
            let a = visit::symbol(a, site, name@, "enum"@, span, None);
            let o = visit::symbol(o, site, name@, "enum"@, span, None);
            lemma_variants(
                base,
                visit::defined(a, id, name@, site.evidence(span)),
                visit::defined(o, id, name@, site.evidence(span)),
                site,
                id,
                name@,
                variants@,
                span,
                variants@.len(),
            );
        },
        Place::Use { tree, span } => {
            let leaves = syntax::leaves(tree, seq![], seq![]);
            lemma_imports(base, a, o, site, leaves, span, leaves.len());
        },
        Place::Call { func, args, span } => lemma_call(
            base,
            a,
            o,
            site,
            bindings,
            func,
            args@,
            span,
        ),
        Place::Method { name, args, span } => lemma_method(
            base,
            a,
            o,
            site,
            bindings,
            name@,
            args@,
            span,
        ),
        _ => {},
    }
}

/// Two readings that stand at the same place.
spec fn abreast(base: LogV, a: State, o: State) -> bool {
    a.bindings == o.bindings && alike(base, a.log, o.log)
}

proof fn lemma_visited(base: LogV, a: State, o: State, site: SiteV, part: Part)
    requires
        abreast(base, a, o),
    ensures
        abreast(base, visit::visited(a, site, part), visit::visited(o, site, part)),
    decreases part, 0nat,
{
    lemma_written(base, a.log, o.log, site, a.bindings, part.place);
    let la = visit::written(a.log, site, a.bindings, part.place);
    let lo = visit::written(o.log, site, o.bindings, part.place);
    let bindings = match part.place {
        Place::Local { pattern, init, .. } => visit::binding(a.bindings, pattern, init),
        _ => a.bindings,
    };
    let inner = visit::inside(site, part.place);
    let parts = part.parts@;
    let ha = State { log: la, bindings };
    let ho = State { log: lo, bindings };
    match part.place {
        Place::Fn(_) => lemma_visited_all(
            base,
            State { log: la, bindings: seq![] },
            State { log: lo, bindings: seq![] },
            inner,
            parts,
            parts.len(),
        ),
        Place::Macro { name, given, .. } => {
            if visit::looked_into(name@, given) {
                let handed = part.handed@;
                lemma_visited_all(base, ha, ho, site, handed, handed.len());
                lemma_visited_all(
                    base,
                    visit::visited_all(ha, site, handed, handed.len()),
                    visit::visited_all(ho, site, handed, handed.len()),
                    inner,
                    parts,
                    parts.len(),
                );
            } else {
                lemma_visited_all(base, ha, ho, inner, parts, parts.len());
            }
        },
        _ => lemma_visited_all(base, ha, ho, inner, parts, parts.len()),
    }
}

proof fn lemma_visited_all(
    base: LogV,
    a: State,
    o: State,
    site: SiteV,
    parts: Seq<Part>,
    n: nat,
)
    requires
        abreast(base, a, o),
    ensures
        abreast(
            base,
            visit::visited_all(a, site, parts, n),
            visit::visited_all(o, site, parts, n),
        ),
    decreases parts, n,
{
    if n > 0 && n <= parts.len() {
        lemma_visited_all(base, a, o, site, parts, (n - 1) as nat);
        lemma_visited(
            base,
            visit::visited_all(a, site, parts, (n - 1) as nat),
            visit::visited_all(o, site, parts, (n - 1) as nat),
            site,
            parts[n - 1],
        );
    }
}

proof fn lemma_file_visited(base: LogV, a: LogV, o: LogV, site: SiteV, tree: Tree)
    requires
        alike(base, a, o),
    ensures
        alike(base, visit::file_visited(a, site, tree), visit::file_visited(o, site, tree)),
{
    let (attrs, parts) = (tree.attrs@, tree.parts@);
    lemma_silenced(base, a, o, site, site.file_id, attrs, "crate"@, attrs.len());
    let a = visit::silenced(a, site, site.file_id, attrs, "crate"@, attrs.len());
    let o = visit::silenced(o, site, site.file_id, attrs, "crate"@, attrs.len());
    lemma_visited_all(
        base,
        State { log: a, bindings: seq![] },
        State { log: o, bindings: seq![] },
        site,
        parts,
        parts.len(),
    );
}

// --- a workspace -------------------------------------------------------------

proof fn lemma_file_written(
    base: LogV,
    a: LogV,
    o: LogV,
    vfs: VfsV,
    package: Text,
    place: EvidenceV,
    file: ParsedV,
    known: Seq<(Text, Text)>,
    facts: FactsV,
)
    requires
        alike(base, a, o),
        schema::is_shown(place),
    ensures
        alike(
            base,
            extract::file_written(a, vfs, package, place, file, known, facts),
            extract::file_written(o, vfs, package, place, file, known, facts),
        ),
{
    broadcast use {lemma_alike_node, lemma_alike_edge};

    let dir = "dir:"@ + extract::parent(file.rel_path);
    let above = extract::directory(dir, text::shorn_start(dir, "dir:"@));
    let to_dir = EdgeV::new(EdgeKind::Contains, package, dir).evidence(place);
    let node = extract::file_node(vfs, file);
    let to_file = EdgeV::new(EdgeKind::Contains, dir, "file:"@ + file.rel_path).evidence(
        extract::file_place(vfs, file.rel_path),
    );
    lemma_file_visited(
        base,
        a.node(above).edge(to_dir).node(node).edge(to_file),
        o.node(above).edge(to_dir).node(node).edge(to_file),
        visit::site_of(package, file, known, facts),
        file.parsed,
    );
}

proof fn lemma_files_written(
    base: LogV,
    a: LogV,
    o: LogV,
    vfs: VfsV,
    package: Text,
    place: EvidenceV,
    files: Seq<ParsedV>,
    known: Seq<(Text, Text)>,
    facts: FactsV,
    n: nat,
)
    requires
        alike(base, a, o),
        schema::is_shown(place),
    ensures
        alike(
            base,
            extract::files_written(a, vfs, package, place, files, known, facts, n),
            extract::files_written(o, vfs, package, place, files, known, facts, n),
        ),
    decreases n,
{
    if n > 0 {
        lemma_files_written(base, a, o, vfs, package, place, files, known, facts, (n - 1) as nat);
        lemma_file_written(
            base,
            extract::files_written(a, vfs, package, place, files, known, facts, (n - 1) as nat),
            extract::files_written(o, vfs, package, place, files, known, facts, (n - 1) as nat),
            vfs,
            package,
            place,
            files[n - 1],
            known,
            facts,
        );
    }
}

proof fn lemma_programs(
    base: LogV,
    a: LogV,
    o: LogV,
    package: Text,
    place: EvidenceV,
    targets: Seq<TargetV>,
    n: nat,
)
    requires
        alike(base, a, o),
        schema::is_shown(place),
    ensures
        alike(
            base,
            extract::programs(a, package, place, targets, n),
            extract::programs(o, package, place, targets, n),
        ),
    decreases n,
{
    broadcast use {lemma_alike_node, lemma_alike_edge};

    if n > 0 {
        lemma_programs(base, a, o, package, place, targets, (n - 1) as nat);
    }
}

proof fn lemma_depends(
    base: LogV,
    a: LogV,
    o: LogV,
    vfs: VfsV,
    package: PackageV,
    known: Seq<(Text, Text)>,
    n: nat,
)
    requires
        alike(base, a, o),
    ensures
        alike(
            base,
            extract::depends(a, vfs, package, known, n),
            extract::depends(o, vfs, package, known, n),
        ),
    decreases n,
{
    broadcast use {lemma_alike_node, lemma_alike_edge, lemma_declared_at};

    if n > 0 {
        lemma_depends(base, a, o, vfs, package, known, (n - 1) as nat);
    }
}

/// A package without its files.
spec fn shell(log: LogV, vfs: VfsV, package: PackageV, known: Seq<(Text, Text)>) -> LogV {
    let id = "pkg:"@ + package.name;
    let dir = extract::parent(package.manifest_path);
    let place = extract::package_place(vfs, package.manifest_path);
    let log = extract::programs(
        log.node(extract::package_node(package)),
        id,
        place,
        package.targets,
        package.targets.len(),
    );
    let log = extract::depends(log, vfs, package, known, package.dependencies.len());
    log.node(extract::directory("dir:"@ + dir, dir)).edge(
        EdgeV::new(EdgeKind::Contains, id, "dir:"@ + dir).evidence(place),
    )
}

proof fn lemma_shell(
    base: LogV,
    a: LogV,
    o: LogV,
    vfs: VfsV,
    package: PackageV,
    known: Seq<(Text, Text)>,
)
    requires
        alike(base, a, o),
    ensures
        alike(base, shell(a, vfs, package, known), shell(o, vfs, package, known)),
{
    broadcast use {lemma_alike_node, lemma_alike_edge, lemma_declared_at};

    let id = "pkg:"@ + package.name;
    let node = extract::package_node(package);
    let place = extract::package_place(vfs, package.manifest_path);
    let targets = package.targets;
    lemma_programs(base, a.node(node), o.node(node), id, place, targets, targets.len());
    lemma_depends(
        base,
        extract::programs(a.node(node), id, place, targets, targets.len()),
        extract::programs(o.node(node), id, place, targets, targets.len()),
        vfs,
        package,
        known,
        package.dependencies.len(),
    );
}

/// What a package says without its files.
spec fn package_says(vfs: VfsV, package: PackageV, known: Seq<(Text, Text)>) -> Set<Said> {
    content(shell(LogV::empty(), vfs, package, known))
}

/// What a file says.
spec fn file_says(
    vfs: VfsV,
    package: Text,
    place: EvidenceV,
    file: ParsedV,
    known: Seq<(Text, Text)>,
    facts: FactsV,
) -> Set<Said> {
    content(extract::file_written(LogV::empty(), vfs, package, place, file, known, facts))
}

/// Whether one of the first `n` files says something.
spec fn files_say(
    vfs: VfsV,
    package: Text,
    place: EvidenceV,
    files: Seq<ParsedV>,
    known: Seq<(Text, Text)>,
    facts: FactsV,
    n: nat,
    s: Said,
) -> bool {
    exists|k: int|
        0 <= k < n && file_says(vfs, package, place, #[trigger] files[k], known, facts).contains(s)
}

proof fn lemma_files_say(
    log: LogV,
    vfs: VfsV,
    package: Text,
    place: EvidenceV,
    files: Seq<ParsedV>,
    known: Seq<(Text, Text)>,
    facts: FactsV,
    n: nat,
    s: Said,
)
    requires
        n <= files.len(),
        schema::is_shown(place),
    ensures
        content(extract::files_written(log, vfs, package, place, files, known, facts, n)).contains(s) <==> (
        content(log).contains(s) || files_say(vfs, package, place, files, known, facts, n, s)),
    decreases n,
{
    if n > 0 {
        let before = extract::files_written(log, vfs, package, place, files, known, facts, (n - 1) as nat);
        lemma_files_say(log, vfs, package, place, files, known, facts, (n - 1) as nat, s);
        lemma_alike_start(before);
        lemma_file_written(
            before,
            LogV::empty(),
            before,
            vfs,
            package,
            place,
            files[n - 1],
            known,
            facts,
        );
        reveal(alike);
        let here = file_says(vfs, package, place, files[n - 1], known, facts);
        if files_say(vfs, package, place, files, known, facts, n, s) && !here.contains(s) {
            let k = choose|k: int|
                0 <= k < n && file_says(vfs, package, place, #[trigger] files[k], known, facts).contains(s);
            assert(0 <= k < n - 1);
        }
    }
}

/// Whether one of the first `n` packages says something.
spec fn packages_say(
    vfs: VfsV,
    packages: Seq<PackageV>,
    files: Seq<Seq<ParsedV>>,
    facts: FactsV,
    n: nat,
    s: Said,
) -> bool {
    let known = extract::known_of(packages, packages.len());
    exists|i: int|
        0 <= i < n && {
            let own = extract::files_for(packages, files, packages[i].name, 0);
            ||| package_says(vfs, #[trigger] packages[i], known).contains(s)
            ||| files_say(
                vfs,
                "pkg:"@ + packages[i].name,
                extract::package_place(vfs, packages[i].manifest_path),
                own,
                known,
                facts,
                own.len(),
                s,
            )
        }
}

proof fn lemma_packages_say(
    log: LogV,
    vfs: VfsV,
    packages: Seq<PackageV>,
    files: Seq<Seq<ParsedV>>,
    facts: FactsV,
    n: nat,
    s: Said,
)
    requires
        n <= packages.len(),
    ensures
        content(extract::packages_written(log, vfs, packages, files, facts, n)).contains(s) <==> (
        content(log).contains(s) || packages_say(vfs, packages, files, facts, n, s)),
    decreases n,
{
    broadcast use lemma_declared_at;

    if n > 0 {
        let known = extract::known_of(packages, packages.len());
        let package = packages[n - 1];
        let id = "pkg:"@ + package.name;
        let place = extract::package_place(vfs, package.manifest_path);
        let own = extract::files_for(packages, files, package.name, 0);
        let before = extract::packages_written(log, vfs, packages, files, facts, (n - 1) as nat);
        lemma_packages_say(log, vfs, packages, files, facts, (n - 1) as nat, s);
        lemma_alike_start(before);
        lemma_shell(before, LogV::empty(), before, vfs, package, known);
        let framed = shell(before, vfs, package, known);
        lemma_files_say(framed, vfs, id, place, own, known, facts, own.len(), s);
        reveal(alike);
        let here = package_says(vfs, package, known).contains(s)
            || files_say(vfs, id, place, own, known, facts, own.len(), s);
        if packages_say(vfs, packages, files, facts, n, s) && !here {
            let i = choose|i: int|
                0 <= i < n && {
                    let own = extract::files_for(packages, files, packages[i].name, 0);
                    ||| package_says(vfs, #[trigger] packages[i], known).contains(s)
                    ||| files_say(
                        vfs,
                        "pkg:"@ + packages[i].name,
                        extract::package_place(vfs, packages[i].manifest_path),
                        own,
                        known,
                        facts,
                        own.len(),
                        s,
                    )
                };
            assert(0 <= i < n - 1);
        }
        if here {
            assert(packages[n - 1] == package);
        }
    }
}

proof fn lemma_header(log: LogV, header: FactV)
    requires
        header is Header,
    ensures
        content(log.fact(header)) == content(log),
        grounded(log) ==> grounded(log.fact(header)),
{
    let after = log.fact(header);
    assert forall|s: Said| #[trigger] content(after).contains(s) == content(log).contains(s) by {
        if let Said::Edge(e) = s {
            lemma_push_other(log.facts, header, FactV::Edge(e));
        }
    }
    assert(content(after) =~= content(log));
}

/// One of several readers: the files it was handed, those of them that it
/// parsed, and what it resolves them against.
pub struct Reader {
    pub vfs: VfsV,
    pub files: Seq<Seq<ParsedV>>,
    pub facts: FactsV,
}

/// Whether a reader stands where one reader of everything would stand: the
/// same manifests, and of every file that is its own the same text, the same
/// aliases and the same facts.
pub open spec fn agrees(one: Reader, all: Reader, packages: Seq<PackageV>) -> bool {
    &&& one.facts.held == all.facts.held
    &&& forall|i: int|
        0 <= i < packages.len() ==> one.vfs.read((#[trigger] packages[i]).manifest_path)
            == all.vfs.read(packages[i].manifest_path)
    &&& forall|i: int, f: ParsedV|
        0 <= i < packages.len() && #[trigger] owns(one, packages, packages[i].name, f) ==> {
            &&& owns(all, packages, packages[i].name, f)
            &&& one.vfs.read(f.rel_path) == all.vfs.read(f.rel_path)
            &&& one.facts.aliases_for(f.rel_path) == all.facts.aliases_for(f.rel_path)
        }
}

/// Whether a reader has read a file as one of a package.
pub open spec fn owns(reader: Reader, packages: Seq<PackageV>, name: Text, f: ParsedV) -> bool {
    extract::files_for(packages, reader.files, name, 0).contains(f)
}

/// What a reader writes.
pub open spec fn writes(reader: Reader, packages: Seq<PackageV>) -> LogV {
    extract::workspace_written(
        LogV::empty(),
        reader.vfs,
        packages,
        reader.files,
        reader.facts,
    )
}

proof fn lemma_writes(reader: Reader, packages: Seq<PackageV>, s: Said)
    ensures
        content(writes(reader, packages)).contains(s) <==> packages_say(
            reader.vfs,
            packages,
            reader.files,
            reader.facts,
            packages.len(),
            s,
        ),
{
    let header = FactV::header("rust"@, reader.vfs.label);
    lemma_header(LogV::empty(), header);
    assert(!content(LogV::empty()).contains(s));
    lemma_packages_say(
        LogV::empty().fact(header),
        reader.vfs,
        packages,
        reader.files,
        reader.facts,
        packages.len(),
        s,
    );
}

proof fn lemma_depends_same(
    log: LogV,
    a: VfsV,
    b: VfsV,
    package: PackageV,
    known: Seq<(Text, Text)>,
    n: nat,
)
    requires
        a.read(package.manifest_path) == b.read(package.manifest_path),
    ensures
        extract::depends(log, a, package, known, n) == extract::depends(log, b, package, known, n),
    decreases n,
{
    if n > 0 {
        lemma_depends_same(log, a, b, package, known, (n - 1) as nat);
    }
}

proof fn lemma_one_says(one: Reader, all: Reader, packages: Seq<PackageV>, i: int, f: ParsedV)
    requires
        agrees(one, all, packages),
        0 <= i < packages.len(),
    ensures
        ({
            let known = extract::known_of(packages, packages.len());
            let id = "pkg:"@ + packages[i].name;
            &&& package_says(one.vfs, packages[i], known) == package_says(
                all.vfs,
                packages[i],
                known,
            )
            &&& owns(one, packages, packages[i].name, f) ==> file_says(
                one.vfs,
                id,
                extract::package_place(one.vfs, packages[i].manifest_path),
                f,
                known,
                one.facts,
            ) == file_says(
                all.vfs,
                id,
                extract::package_place(all.vfs, packages[i].manifest_path),
                f,
                known,
                all.facts,
            )
        }),
{
    let known = extract::known_of(packages, packages.len());
    let package = packages[i];
    let id = "pkg:"@ + package.name;
    let targets = package.targets;
    lemma_depends_same(
        extract::programs(
            LogV::empty().node(extract::package_node(package)),
            id,
            extract::package_place(all.vfs, package.manifest_path),
            targets,
            targets.len(),
        ),
        one.vfs,
        all.vfs,
        package,
        known,
        package.dependencies.len(),
    );
}

/// Read by several readers, a workspace says what one reader says: everything
/// that one of them writes, the one writes, and everything that the one
/// writes, one of them writes.
pub proof fn lemma_readers_say_the_same(
    all: Reader,
    readers: Seq<Reader>,
    packages: Seq<PackageV>,
    s: Said,
)
    requires
        readers.len() > 0,
        forall|r: int| 0 <= r < readers.len() ==> agrees(#[trigger] readers[r], all, packages),
        forall|i: int, f: ParsedV|
            0 <= i < packages.len() && #[trigger] owns(all, packages, packages[i].name, f)
                ==> exists|r: int|
                0 <= r < readers.len() && owns(#[trigger] readers[r], packages, packages[i].name, f),
    ensures
        content(writes(all, packages)).contains(s) <==> exists|r: int|
            0 <= r < readers.len() && content(writes(#[trigger] readers[r], packages)).contains(s),
{
    let known = extract::known_of(packages, packages.len());
    lemma_writes(all, packages, s);
    if content(writes(all, packages)).contains(s) {
        let i = choose|i: int|
            0 <= i < packages.len() && {
                let own = extract::files_for(packages, all.files, packages[i].name, 0);
                ||| package_says(all.vfs, #[trigger] packages[i], known).contains(s)
                ||| files_say(
                    all.vfs,
                    "pkg:"@ + packages[i].name,
                    extract::package_place(all.vfs, packages[i].manifest_path),
                    own,
                    known,
                    all.facts,
                    own.len(),
                    s,
                )
            };
        let id = "pkg:"@ + packages[i].name;
        let own = extract::files_for(packages, all.files, packages[i].name, 0);
        if package_says(all.vfs, packages[i], known).contains(s) {
            assert(agrees(readers[0], all, packages));
            lemma_one_says(readers[0], all, packages, i, arbitrary());
            lemma_writes(readers[0], packages, s);
        } else {
            let k = choose|k: int|
                0 <= k < own.len() && file_says(
                    all.vfs,
                    id,
                    extract::package_place(all.vfs, packages[i].manifest_path),
                    #[trigger] own[k],
                    known,
                    all.facts,
                ).contains(s);
            let f = own[k];
            assert(own.contains(f));
            assert(owns(all, packages, packages[i].name, f));
            let r = choose|r: int|
                0 <= r < readers.len() && owns(
                    #[trigger] readers[r],
                    packages,
                    packages[i].name,
                    f,
                );
            let one = readers[r];
            assert(agrees(one, all, packages));
            lemma_one_says(one, all, packages, i, f);
            lemma_writes(one, packages, s);
            let its = extract::files_for(packages, one.files, packages[i].name, 0);
            let j = choose|j: int| 0 <= j < its.len() && its[j] == f;
            assert(file_says(one.vfs, id, extract::package_place(one.vfs, packages[i].manifest_path), its[j], known, one.facts).contains(s));
            assert(files_say(one.vfs, id, extract::package_place(one.vfs, packages[i].manifest_path), its, known, one.facts, its.len(), s));
            assert(packages_say(
                one.vfs,
                packages,
                one.files,
                one.facts,
                packages.len(),
                s,
            ));
        }
    }
    if exists|r: int|
        0 <= r < readers.len() && content(writes(#[trigger] readers[r], packages)).contains(s) {
        let r = choose|r: int|
            0 <= r < readers.len() && content(writes(#[trigger] readers[r], packages)).contains(s);
        let one = readers[r];
        assert(agrees(one, all, packages));
        lemma_writes(one, packages, s);
        let i = choose|i: int|
            0 <= i < packages.len() && {
                let own = extract::files_for(packages, one.files, packages[i].name, 0);
                ||| package_says(one.vfs, #[trigger] packages[i], known).contains(s)
                ||| files_say(
                    one.vfs,
                    "pkg:"@ + packages[i].name,
                    extract::package_place(one.vfs, packages[i].manifest_path),
                    own,
                    known,
                    one.facts,
                    own.len(),
                    s,
                )
            };
        let id = "pkg:"@ + packages[i].name;
        let its = extract::files_for(packages, one.files, packages[i].name, 0);
        if package_says(one.vfs, packages[i], known).contains(s) {
            lemma_one_says(one, all, packages, i, arbitrary());
        } else {
            let j = choose|j: int|
                0 <= j < its.len() && file_says(
                    one.vfs,
                    id,
                    extract::package_place(one.vfs, packages[i].manifest_path),
                    #[trigger] its[j],
                    known,
                    one.facts,
                ).contains(s);
            let f = its[j];
            assert(its.contains(f));
            assert(owns(one, packages, packages[i].name, f));
            lemma_one_says(one, all, packages, i, f);
            let own = extract::files_for(packages, all.files, packages[i].name, 0);
            assert(owns(all, packages, packages[i].name, f));
            let k = choose|k: int| 0 <= k < own.len() && own[k] == f;
            assert(file_says(all.vfs, id, extract::package_place(all.vfs, packages[i].manifest_path), own[k], known, all.facts).contains(s));
            assert(files_say(all.vfs, id, extract::package_place(all.vfs, packages[i].manifest_path), own, known, all.facts, own.len(), s));
        }
    }
}

// --- the split ---------------------------------------------------------------

proof fn lemma_renamed_in(a: Found, b: Found, owner: Option<Text>, part: Part)
    requires
        a.renamed == b.renamed,
    ensures
        prepass::found_in(a, owner, part).renamed == prepass::found_in(b, owner, part).renamed,
    decreases part, 0nat,
{
    if prepass::opens(part.place) {
        lemma_renamed_all(
            prepass::found_at(a, owner, part.place),
            prepass::found_at(b, owner, part.place),
            prepass::owner_in(owner, part.place),
            part.parts@,
            part.parts@.len(),
        );
    }
}

proof fn lemma_renamed_all(a: Found, b: Found, owner: Option<Text>, parts: Seq<Part>, n: nat)
    requires
        a.renamed == b.renamed,
    ensures
        prepass::found_all(a, owner, parts, n).renamed == prepass::found_all(
            b,
            owner,
            parts,
            n,
        ).renamed,
    decreases parts, n,
{
    if n > 0 && n <= parts.len() {
        lemma_renamed_all(a, b, owner, parts, (n - 1) as nat);
        lemma_renamed_in(
            prepass::found_all(a, owner, parts, (n - 1) as nat),
            prepass::found_all(b, owner, parts, (n - 1) as nat),
            owner,
            parts[n - 1],
        );
    }
}

/// What a file gives other names to.
spec fn renames(file: ParsedV) -> Seq<(Text, Text)> {
    prepass::found_all(
        Found { held: SharedV::empty(), renamed: seq![] },
        None,
        file.parsed.parts@,
        file.parsed.parts@.len(),
    ).renamed
}

/// No file is read twice.
pub open spec fn distinct(files: Seq<ParsedV>) -> bool {
    forall|i: int, j: int|
        0 <= i < j < files.len() ==> (#[trigger] files[i]).rel_path != (#[trigger] files[j]).rel_path
}

proof fn lemma_aliases(facts: FactsV, files: Seq<ParsedV>, n: nat, k: int)
    requires
        distinct(files),
        0 <= k < n <= files.len(),
    ensures
        facts.files(files, n).aliases_for(files[k].rel_path) == renames(files[k]),
    decreases n,
{
    let before = facts.files(files, (n - 1) as nat);
    let last = files[n - 1];
    let held = Found { held: before.held, renamed: seq![] };
    let none = Found { held: SharedV::empty(), renamed: seq![] };
    let parts = last.parsed.parts@;
    lemma_renamed_all(held, none, None, parts, parts.len());
    table::lemma_put_lookup(before.aliases, last.rel_path, renames(last), files[k].rel_path);
    if k < n - 1 {
        assert(files[k].rel_path != files[n - 1].rel_path);
        lemma_aliases(facts, files, (n - 1) as nat, k);
    }
}

/// A file that is read for a package is among those that are read.
proof fn lemma_file_among(
    packages: Seq<PackageV>,
    files: Seq<Seq<ParsedV>>,
    name: Text,
    i: nat,
    f: ParsedV,
) -> (k: int)
    requires
        extract::files_for(packages, files, name, i).contains(f),
    ensures
        0 <= k < pieces::files_in(files, files.len()).len(),
        pieces::files_in(files, files.len())[k] == f,
    decreases packages.len() - i,
{
    if packages[i as int].name == name {
        let own = files[i as int];
        let j = choose|j: int| 0 <= j < own.len() && own[j] == f;
        lemma_file_at(files, files.len(), i as int, j)
    } else {
        lemma_file_among(packages, files, name, i + 1, f)
    }
}

proof fn lemma_file_at(files: Seq<Seq<ParsedV>>, n: nat, i: int, j: int) -> (k: int)
    requires
        0 <= i < n <= files.len(),
        0 <= j < files[i].len(),
    ensures
        0 <= k < pieces::files_in(files, n).len(),
        pieces::files_in(files, n)[k] == files[i][j],
    decreases n,
{
    let before = pieces::files_in(files, (n - 1) as nat);
    if i == n - 1 {
        before.len() + j
    } else {
        lemma_file_at(files, (n - 1) as nat, i, j)
    }
}

proof fn lemma_distinct_parts(readers: Seq<Seq<Seq<ParsedV>>>, n: nat, r: int)
    requires
        0 <= r < n <= readers.len(),
        distinct(pieces::files_together(readers, n)),
    ensures
        distinct(pieces::files_in(readers[r], readers[r].len())),
    decreases n,
{
    let before = pieces::files_together(readers, (n - 1) as nat);
    let last = pieces::files_in(readers[n - 1], readers[n - 1].len());
    let all = before + last;
    if r == n - 1 {
        assert forall|i: int, j: int| 0 <= i < j < last.len() implies (
        #[trigger] last[i]).rel_path != (#[trigger] last[j]).rel_path by {
            assert(all[before.len() + i].rel_path != all[before.len() + j].rel_path);
        }
    } else {
        assert forall|i: int, j: int| 0 <= i < j < before.len() implies (
        #[trigger] before[i]).rel_path != (#[trigger] before[j]).rel_path by {
            assert(all[i].rel_path != all[j].rel_path);
        }
        lemma_distinct_parts(readers, (n - 1) as nat, r);
    }
}

/// What a reader has been handed and has parsed.
pub struct Handed {
    pub vfs: VfsV,
    pub files: Seq<Seq<ParsedV>>,
}

/// One that reads everything and follows what it found.
pub open spec fn alone(handed: Handed) -> Reader {
    Reader {
        vfs: handed.vfs,
        files: handed.files,
        facts: FactsV::empty().packages(handed.files, handed.files.len()).followed(),
    }
}

/// One of several, who has taken on what all of them found.
pub open spec fn adopting(handed: Handed, shared: SharedV) -> Reader {
    Reader {
        vfs: handed.vfs,
        files: handed.files,
        facts: FactsV {
            held: shared,
            ..FactsV::empty().packages(handed.files, handed.files.len())
        },
    }
}

pub open spec fn files_handed(readers: Seq<Handed>) -> Seq<Seq<Seq<ParsedV>>> {
    Seq::new(readers.len(), |r: int| readers[r].files)
}

/// What all readers found, followed.
pub open spec fn settled(readers: Seq<Handed>) -> SharedV {
    pieces::found_together(files_handed(readers), readers.len()).followed()
}

/// Whether a reader was handed its part of everything: every manifest as it
/// is, and files of each package as they are.
pub open spec fn takes_part(one: Handed, all: Handed, packages: Seq<PackageV>) -> bool {
    &&& forall|i: int|
        0 <= i < packages.len() ==> one.vfs.read((#[trigger] packages[i]).manifest_path)
            == all.vfs.read(packages[i].manifest_path)
    &&& forall|i: int, f: ParsedV|
        0 <= i < packages.len() && #[trigger] extract::files_for(
            packages,
            one.files,
            packages[i].name,
            0,
        ).contains(f) ==> {
            &&& extract::files_for(packages, all.files, packages[i].name, 0).contains(f)
            &&& one.vfs.read(f.rel_path) == all.vfs.read(f.rel_path)
        }
}

/// A workspace that is read in pieces says what it says read whole. The files
/// are handed out in the order one reader would read them; each reader says
/// what it found; the findings are merged and followed; and each writes down
/// its own files against that. What they write is what the one reader writes.
pub proof fn lemma_split_reading(
    all: Handed,
    readers: Seq<Handed>,
    packages: Seq<PackageV>,
    s: Said,
)
    requires
        readers.len() > 0,
        pieces::files_in(all.files, all.files.len()) == pieces::files_together(
            files_handed(readers),
            readers.len(),
        ),
        distinct(pieces::files_in(all.files, all.files.len())),
        forall|r: int| 0 <= r < readers.len() ==> takes_part(#[trigger] readers[r], all, packages),
        forall|i: int, f: ParsedV|
            0 <= i < packages.len() && #[trigger] extract::files_for(
                packages,
                all.files,
                packages[i].name,
                0,
            ).contains(f) ==> exists|r: int|
                0 <= r < readers.len() && extract::files_for(
                    packages,
                    (#[trigger] readers[r]).files,
                    packages[i].name,
                    0,
                ).contains(f),
    ensures
        content(writes(alone(all), packages)).contains(s) <==> exists|r: int|
            0 <= r < readers.len() && content(
                writes(adopting(#[trigger] readers[r], settled(readers)), packages),
            ).contains(s),
{
    let shared = settled(readers);
    let each = Seq::new(readers.len(), |r: int| adopting(readers[r], shared));
    let handed = files_handed(readers);
    pieces::lemma_read_in_pieces(all.files, handed);
    pieces::lemma_packages_are_files(FactsV::empty(), all.files, all.files.len());
    let whole = pieces::files_in(all.files, all.files.len());
    assert forall|r: int| 0 <= r < each.len() implies agrees(
        #[trigger] each[r],
        alone(all),
        packages,
    ) by {
        let one = readers[r];
        let files = pieces::files_in(one.files, one.files.len());
        assert(takes_part(one, all, packages));
        assert(handed[r] == one.files);
        pieces::lemma_packages_are_files(FactsV::empty(), one.files, one.files.len());
        lemma_distinct_parts(handed, handed.len(), r);
        assert forall|i: int, f: ParsedV|
            0 <= i < packages.len() && #[trigger] owns(
                each[r],
                packages,
                packages[i].name,
                f,
            ) implies {
            &&& owns(alone(all), packages, packages[i].name, f)
            &&& each[r].vfs.read(f.rel_path) == alone(all).vfs.read(f.rel_path)
            &&& each[r].facts.aliases_for(f.rel_path) == alone(all).facts.aliases_for(
                f.rel_path,
            )
        } by {
            let name = packages[i].name;
            assert(extract::files_for(packages, one.files, name, 0).contains(f));
            let k = lemma_file_among(packages, one.files, name, 0, f);
            lemma_aliases(FactsV::empty(), files, files.len(), k);
            let j = lemma_file_among(packages, all.files, name, 0, f);
            lemma_aliases(FactsV::empty(), whole, whole.len(), j);
        }
    }
    assert forall|i: int, f: ParsedV|
        0 <= i < packages.len() && #[trigger] owns(
            alone(all),
            packages,
            packages[i].name,
            f,
        ) implies exists|r: int|
        0 <= r < each.len() && owns(#[trigger] each[r], packages, packages[i].name, f) by {
        assert(extract::files_for(packages, all.files, packages[i].name, 0).contains(f));
        let r = choose|r: int|
            0 <= r < readers.len() && extract::files_for(
                packages,
                (#[trigger] readers[r]).files,
                packages[i].name,
                0,
            ).contains(f);
        assert(owns(each[r], packages, packages[i].name, f));
    }
    lemma_readers_say_the_same(alone(all), each, packages, s);
    if exists|r: int| 0 <= r < each.len() && content(writes(#[trigger] each[r], packages)).contains(s) {
        let r = choose|r: int|
            0 <= r < each.len() && content(writes(#[trigger] each[r], packages)).contains(s);
        assert(adopting(readers[r], shared) == each[r]);
    }
    if exists|r: int|
        0 <= r < readers.len() && content(
            writes(adopting(#[trigger] readers[r], shared), packages),
        ).contains(s) {
        let r = choose|r: int|
            0 <= r < readers.len() && content(
                writes(adopting(#[trigger] readers[r], shared), packages),
            ).contains(s);
        assert(each[r] == adopting(readers[r], shared));
    }
}

// --- evidence ----------------------------------------------------------------

proof fn lemma_packages_grounded(
    log: LogV,
    vfs: VfsV,
    packages: Seq<PackageV>,
    files: Seq<Seq<ParsedV>>,
    facts: FactsV,
    n: nat,
)
    requires
        grounded(log),
    ensures
        grounded(extract::packages_written(log, vfs, packages, files, facts, n)),
    decreases n,
{
    broadcast use lemma_declared_at;

    if n > 0 {
        lemma_packages_grounded(log, vfs, packages, files, facts, (n - 1) as nat);
        let known = extract::known_of(packages, packages.len());
        let package = packages[n - 1];
        let own = extract::files_for(packages, files, package.name, 0);
        let before = extract::packages_written(log, vfs, packages, files, facts, (n - 1) as nat);
        lemma_alike_start(before);
        lemma_shell(before, LogV::empty(), before, vfs, package, known);
        lemma_files_written(
            before,
            shell(LogV::empty(), vfs, package, known),
            shell(before, vfs, package, known),
            vfs,
            "pkg:"@ + package.name,
            extract::package_place(vfs, package.manifest_path),
            own,
            known,
            facts,
            own.len(),
        );
        reveal(alike);
    }
}

/// Every edge that is written shows where it was read.
pub proof fn lemma_every_claim_is_vouched_for(reader: Reader, packages: Seq<PackageV>)
    ensures
        grounded(writes(reader, packages)),
{
    let header = FactV::header("rust"@, reader.vfs.label);
    lemma_header(LogV::empty(), header);
    lemma_packages_grounded(
        LogV::empty().fact(header),
        reader.vfs,
        packages,
        reader.files,
        reader.facts,
        packages.len(),
    );
}

}
