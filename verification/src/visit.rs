//! Turns one file into nodes and edges.
//!
//! No name resolution. Everything here follows from the syntax of a single
//! file and from the few facts gathered beforehand, which keeps a whole
//! workspace readable in seconds with no build.

use vstd::prelude::*;

use crate::json::{self, Json, JsonV};
use crate::prepass::{FactsV, PackageFacts, ParsedFile, ParsedV, Shared, SharedV};
use crate::schema::{
    self, Edge, EdgeKind, EdgeV, Evidence, EvidenceV, FactV, Id, Node, NodeKind, NodeV,
};
use crate::syntax::{
    self, Arg, Branch, Attr, Binding, BindingV, Expression, Field, Form, Function, Input, Part, Pattern,
    Place, Prototype, Extent, Tree, TypeRef, Import, Variant,
};
use crate::table::{self, Names, Table};
use crate::text::{self, Text};
use crate::vfs;
use crate::writer::{LogV, Writer};

verus! {

/// Where in a file, and in which file of which package, something stands.
pub struct Site<'a> {
    pub package: Id,
    pub rel_path: String,
    pub file_id: Id,
    pub module_prefix: String,
    /// `mod x { .. }` blocks entered so far.
    pub modules: Vec<String>,
    /// Enclosing symbols; the last one owns any effect found.
    pub symbols: Vec<Id>,
    /// Enclosing `impl` and `trait` names, which qualify a symbol's path.
    pub paths: Vec<String>,
    /// Whether this is test code: a file under `tests/` or `benches/`, or
    /// inside a `#[cfg(test)]` module.
    pub in_test: bool,
    pub known: &'a Table<Id>,
    pub aliases: &'a Table<String>,
    pub facts: &'a Shared,
}

pub struct SiteV {
    pub package: Text,
    pub rel_path: Text,
    pub file_id: Text,
    pub module_prefix: Text,
    pub modules: Seq<Text>,
    pub symbols: Seq<Text>,
    pub paths: Seq<Text>,
    pub in_test: bool,
    pub known: Seq<(Text, Text)>,
    pub aliases: Seq<(Text, Text)>,
    pub facts: SharedV,
}

impl<'a> DeepView for Site<'a> {
    type V = SiteV;

    open spec fn deep_view(&self) -> SiteV {
        SiteV {
            package: self.package.0@,
            rel_path: self.rel_path@,
            file_id: self.file_id.0@,
            module_prefix: self.module_prefix@,
            modules: self.modules.deep_view(),
            symbols: self.symbols.deep_view(),
            paths: self.paths.deep_view(),
            in_test: self.in_test,
            known: self.known.deep_view(),
            aliases: self.aliases.deep_view(),
            facts: self.facts.deep_view(),
        }
    }
}

pub open spec fn named(kind: NodeKind, id: Text, name: Text) -> NodeV {
    NodeV::new(id, kind).attr("name"@, JsonV::Str(name))
}

pub(crate) fn named_node(kind: NodeKind, id: Id, name: &str) -> (node: Node)
    ensures
        node.deep_view() == named(kind, id.0@, name@),
{
    Node::new(id, kind).attr("name", Json::str(name))
}

/// The lines of a span. Lines are counted from one, and the last is not before
/// the first.
pub open spec fn place_in(span: Extent) -> (u32, u32) {
    let first = if span.start_line == 0 {
        1
    } else {
        span.start_line
    };
    (
        first,
        if span.end_line < first {
            first
        } else {
            span.end_line
        },
    )
}

impl SiteV {
    pub open spec fn evidence(self, span: Extent) -> EvidenceV {
        schema::seen_at(
            schema::path_shown(self.rel_path),
            place_in(span),
            Some((span.start_col, span.end_col)),
        )
    }

    /// What an effect or a definition belongs to: the innermost enclosing
    /// symbol, or the file at top level.
    pub open spec fn container(self) -> Text {
        if self.symbols.len() == 0 {
            self.file_id
        } else {
            self.symbols.last()
        }
    }

    pub open spec fn path_of_module(self) -> Text {
        syntax::dotted(
            if self.module_prefix.len() == 0 {
                self.modules
            } else {
                seq![self.module_prefix] + self.modules
            },
        )
    }

    /// `sym:<pkg>::<module>::<impl>::<name>`: path-addressed, never
    /// line-addressed, and two methods of different types do not collide.
    pub open spec fn symbol_id(self, name: Text) -> Text {
        let package = seq![text::shorn_start(self.package, "pkg:"@)];
        let module = self.path_of_module();
        let inside = if module.len() == 0 {
            package
        } else {
            package.push(module)
        };
        "sym:"@ + syntax::dotted((inside + self.paths).push(name))
    }
}

pub(crate) fn append(list: &mut Vec<String>, more: &Vec<String>)
    ensures
        final(list).deep_view() == old(list).deep_view() + more.deep_view(),
{
    let ghost start = list.deep_view();
    let mut i: usize = 0;
    assert(start + more.deep_view().take(0) =~= start);
    while i < more.len()
        invariant
            i <= more.len(),
            list.deep_view() == start + more.deep_view().take(i as int),
        decreases more.len() - i,
    {
        text::push(list, more[i].clone());
        assert(list.deep_view() =~= start + more.deep_view().take(i + 1));
        i += 1;
    }
    assert(more.deep_view().take(more@.len() as int) =~= more.deep_view());
}

fn copy_ids(list: &Vec<Id>) -> (out: Vec<Id>)
    ensures
        out.deep_view() == list.deep_view(),
{
    let mut out: Vec<Id> = Vec::new();
    let mut i: usize = 0;
    while i < list.len()
        invariant
            i <= list.len(),
            out.deep_view() == list.deep_view().take(i as int),
        decreases list.len() - i,
    {
        text::push(&mut out, list[i].copy());
        assert(out.deep_view() =~= list.deep_view().take(i + 1));
        i += 1;
    }
    assert(out.deep_view() =~= list.deep_view());
    out
}

impl<'a> Site<'a> {
    fn evidence(&self, span: Extent) -> (ev: Evidence)
        ensures
            ev.deep_view() == self.deep_view().evidence(span),
    {
        let first: u32 = if span.start_line == 0 {
            1
        } else {
            span.start_line
        };
        let last: u32 = if span.end_line < first {
            first
        } else {
            span.end_line
        };
        Evidence::spanning(
            schema::show_path(self.rel_path.as_str()).as_str(),
            [first, last],
            [span.start_col, span.end_col],
        )
    }

    fn container(&self) -> (id: Id)
        ensures
            id.0@ == self.deep_view().container(),
    {
        if self.symbols.len() == 0 {
            self.file_id.copy()
        } else {
            assert(self.symbols.deep_view().last() == self.symbols@.last().0@);
            self.symbols[self.symbols.len() - 1].copy()
        }
    }

    fn path_of_module(&self) -> (path: String)
        ensures
            path@ == self.deep_view().path_of_module(),
    {
        let mut parts: Vec<String> = Vec::new();
        assert(parts.deep_view() =~= seq![]);
        if !text::is_empty(self.module_prefix.as_str()) {
            text::push(&mut parts, self.module_prefix.clone());
            assert(parts.deep_view() =~= seq![self.module_prefix@]);
        }
        append(&mut parts, &self.modules);
        assert(seq![] + self.modules.deep_view() =~= self.modules.deep_view());
        text::join(&parts, "::")
    }

    fn symbol_id(&self, name: &str) -> (id: Id)
        ensures
            id.0@ == self.deep_view().symbol_id(name@),
    {
        proof {
            reveal_strlit("pkg:");
        }
        let mut parts: Vec<String> = Vec::new();
        assert(parts.deep_view() =~= seq![]);
        text::push(&mut parts, text::trim_start_matches(self.package.0.as_str(), "pkg:"));
        let module = self.path_of_module();
        if !text::is_empty(module.as_str()) {
            text::push(&mut parts, module);
        }
        append(&mut parts, &self.paths);
        text::push(&mut parts, name.to_owned());
        Id::symbol(text::join(&parts, "::").as_str())
    }

    fn copy(&self) -> (site: Site<'a>)
        ensures
            site.deep_view() == self.deep_view(),
    {
        Site {
            package: self.package.copy(),
            rel_path: self.rel_path.clone(),
            file_id: self.file_id.copy(),
            module_prefix: self.module_prefix.clone(),
            modules: text::copy_list(&self.modules),
            symbols: copy_ids(&self.symbols),
            paths: text::copy_list(&self.paths),
            in_test: self.in_test,
            known: self.known,
            aliases: self.aliases,
            facts: self.facts,
        }
    }
}

// --- symbols -----------------------------------------------------------------

/// What `DefaultHasher` makes of a text.
pub uninterp spec fn hash_of(s: Text) -> u64;

/// Calls `hash_one` of `std::hash::BuildHasher`, on the builder that makes each
/// `DefaultHasher` by its `default`, which every process seeds alike.
#[verifier::external_body]
fn hash_text(s: &str) -> (h: u64)
    ensures
        h == hash_of(s@),
{
    std::hash::BuildHasher::hash_one(
        &std::hash::BuildHasherDefault::<std::collections::hash_map::DefaultHasher>::default(),
        s,
    )
}

/// A fingerprint of a body, for finding copies: of its tokens exactly, since
/// two bodies of one shape are often just two functions doing similar work.
/// Short bodies have none; getters and one-line delegations are alike by
/// chance.
pub open spec fn fingerprint(tokens: Text) -> Option<Text> {
    let body = text::joined(text::words_of(tokens), " "@);
    if vfs::bytes_in(body) < 220 {
        None
    } else {
        Some(text::hex_of(hash_of(body) as nat))
    }
}

pub fn body_fingerprint(tokens: &str) -> (print: Option<String>)
    ensures
        print.deep_view() == fingerprint(tokens@),
{
    let body = text::join(&text::words(tokens), " ");
    if vfs::shorter_than(body.as_str(), 220) {
        return None;
    }
    Some(text::hex(hash_text(body.as_str())))
}

pub open spec fn lines_in(span: Extent) -> u64 {
    if span.end_line >= span.start_line {
        (span.end_line - span.start_line + 1) as u64
    } else {
        1
    }
}

fn line_count(span: Extent) -> (n: u64)
    ensures
        n == lines_in(span),
{
    if span.end_line >= span.start_line {
        (span.end_line - span.start_line) as u64 + 1
    } else {
        1
    }
}

pub open spec fn symbol_node(
    site: SiteV,
    name: Text,
    lang_kind: Text,
    span: Extent,
    print: Option<Text>,
) -> NodeV {
    let node = named(NodeKind::Symbol, site.symbol_id(name), name).attr(
        "lang:kind"@,
        JsonV::Str(lang_kind),
    ).attr("lines"@, JsonV::Whole(lines_in(span)));
    if site.in_test {
        node.attr("role"@, JsonV::Str("test"@))
    } else {
        match print {
            Some(hash) => node.attr("body"@, JsonV::Str(hash)),
            None => node,
        }
    }
}

/// A symbol, and the edge that puts it where it is.
pub open spec fn symbol(
    log: LogV,
    site: SiteV,
    name: Text,
    lang_kind: Text,
    span: Extent,
    tokens: Option<Text>,
) -> LogV {
    let print = match tokens {
        Some(tokens) => fingerprint(tokens),
        None => None,
    };
    log.node(symbol_node(site, name, lang_kind, span, print)).edge(
        EdgeV::new(EdgeKind::Contains, site.container(), site.symbol_id(name)).evidence(
            site.evidence(span),
        ),
    )
}

fn emit_symbol_with(
    out: &mut Writer,
    site: &Site,
    name: &str,
    lang_kind: &str,
    span: Extent,
    tokens: Option<&String>,
) -> (id: Id)
    ensures
        id.0@ == site.deep_view().symbol_id(name@),
        final(out)@ == symbol(
            old(out)@,
            site.deep_view(),
            name@,
            lang_kind@,
            span,
            tokens.deep_view(),
        ),
{
    let id = site.symbol_id(name);
    let node = named_node(NodeKind::Symbol, id.copy(), name).attr(
        "lang:kind",
        Json::str(lang_kind),
    ).attr("lines", Json::Whole(line_count(span)));
    let node = if site.in_test {
        node.attr("role", Json::str("test"))
    } else {
        let print = match tokens {
            Some(tokens) => body_fingerprint(tokens.as_str()),
            None => None,
        };
        match print {
            Some(hash) => node.attr("body", Json::Str(hash)),
            None => node,
        }
    };
    out.node(node);
    out.edge(
        Edge::new(EdgeKind::Contains, site.container(), id.copy()).evidence(site.evidence(span)),
    );
    id
}

// --- types -------------------------------------------------------------------

pub open spec fn type_id(ty: TypeRef) -> Text {
    "type:"@ + syntax::text_of(ty)
}

pub open spec fn type_node(ty: TypeRef) -> NodeV {
    let node = NodeV::new(type_id(ty), NodeKind::Type).attr(
        "text"@,
        JsonV::Str(syntax::text_of(ty)),
    );
    match syntax::base_of(ty) {
        Some(base) => node.attr("base"@, JsonV::Str(base)),
        None => node,
    }
}

/// A type as it is written, and each of its arguments as a type in its own
/// right.
pub open spec fn typed(log: LogV, ty: TypeRef, ev: EvidenceV) -> LogV
    decreases ty, 1nat,
{
    type_args(log.node(type_node(ty)), type_id(ty), ty, ev)
}

/// The arguments of a type, as those of `owner`.
pub open spec fn type_args(log: LogV, owner: Text, ty: TypeRef, ev: EvidenceV) -> LogV
    decreases ty, 0nat,
{
    match ty.form {
        Form::Reference(inner) => type_args(log, owner, *inner, ev),
        Form::Paren(inner) => type_args(log, owner, *inner, ev),
        Form::Slice(inner) => argument(typed(log, *inner, ev), owner, *inner, 0, ev),
        Form::Array(inner) => argument(typed(log, *inner, ev), owner, *inner, 0, ev),
        Form::Tuple(elems) => elem_args(log, owner, elems@, elems@.len(), ev),
        Form::Path { args, .. } => path_args(log, owner, args@, args@.len(), ev),
        Form::Other => log,
    }
}

pub open spec fn elem_args(log: LogV, owner: Text, elems: Seq<TypeRef>, n: nat, ev: EvidenceV) -> LogV
    decreases elems, n,
{
    if n == 0 || n > elems.len() {
        log
    } else {
        let before = elem_args(log, owner, elems, (n - 1) as nat, ev);
        argument(typed(before, elems[n - 1], ev), owner, elems[n - 1], (n - 1) as nat, ev)
    }
}

/// How many of the first `n` arguments are types.
pub open spec fn types_before(args: Seq<Arg>, n: nat) -> nat
    decreases n,
{
    if n == 0 {
        0
    } else {
        types_before(args, (n - 1) as nat) + if args[n - 1] is Type {
            1nat
        } else {
            0nat
        }
    }
}

/// Lifetimes and constants are passed over, and not counted.
pub open spec fn path_args(log: LogV, owner: Text, args: Seq<Arg>, n: nat, ev: EvidenceV) -> LogV
    decreases args, n,
{
    if n == 0 || n > args.len() {
        log
    } else {
        let before = path_args(log, owner, args, (n - 1) as nat, ev);
        match args[n - 1] {
            Arg::Type(inner) => argument(
                typed(before, inner, ev),
                owner,
                inner,
                types_before(args, (n - 1) as nat),
                ev,
            ),
            Arg::Other => before,
        }
    }
}

/// One argument of a type, read where the type is spelled out. A type is not its
/// own argument.
pub open spec fn argument(
    log: LogV,
    owner: Text,
    inner: TypeRef,
    position: nat,
    ev: EvidenceV,
) -> LogV {
    if owner == type_id(inner) {
        log
    } else {
        log.edge(
            EdgeV::new(EdgeKind::TypeArg, owner, type_id(inner)).attr(
                "position"@,
                JsonV::Whole(position as u64),
            ).evidence(ev),
        )
    }
}

fn emit_argument(
    out: &mut Writer,
    owner: &Id,
    child: Id,
    inner: &TypeRef,
    position: usize,
    ev: &Evidence,
)
    requires
        child.0@ == type_id(*inner),
    ensures
        final(out)@ == argument(
            old(out)@,
            owner.0@,
            *inner,
            position as nat,
            ev.deep_view(),
        ),
{
    if text::same(owner.0.as_str(), child.0.as_str()) {
        return;
    }
    out.edge(
        Edge::new(EdgeKind::TypeArg, owner.copy(), child).attr(
            "position",
            Json::Whole(position as u64),
        ).evidence(ev.copy()),
    );
}

fn emit_type(out: &mut Writer, ty: &TypeRef, ev: &Evidence) -> (id: Id)
    ensures
        id.0@ == type_id(*ty),
        final(out)@ == typed(old(out)@, *ty, ev.deep_view()),
    decreases ty, 1nat,
{
    let written = syntax::type_text(ty);
    let id = Id::type_ref(written.as_str());
    let node = Node::new(id.copy(), NodeKind::Type).attr("text", Json::Str(written));
    let node = match syntax::base_name(ty) {
        Some(base) => node.attr("base", Json::Str(base)),
        None => node,
    };
    out.node(node);
    emit_type_args(out, &id, ty, ev);
    id
}

fn emit_type_args(out: &mut Writer, owner: &Id, ty: &TypeRef, ev: &Evidence)
    ensures
        final(out)@ == type_args(old(out)@, owner.0@, *ty, ev.deep_view()),
    decreases ty, 0nat,
{
    let ghost start = out@;
    match &ty.form {
        Form::Reference(inner) => emit_type_args(out, owner, inner, ev),
        Form::Paren(inner) => emit_type_args(out, owner, inner, ev),
        Form::Slice(inner) => {
            let child = emit_type(out, inner, ev);
            emit_argument(out, owner, child, inner, 0, ev);
        },
        Form::Array(inner) => {
            let child = emit_type(out, inner, ev);
            emit_argument(out, owner, child, inner, 0, ev);
        },
        Form::Tuple(elems) => {
            let mut i: usize = 0;
            while i < elems.len()
                invariant
                    i <= elems.len(),
                    ty.form == Form::Tuple(*elems),
                    out@ == elem_args(start, owner.0@, elems@, i as nat, ev.deep_view()),
                decreases elems.len() - i,
            {
                assert(decreases_to!(*ty => ty.form));
                assert(decreases_to!(ty.form => ty.form->Tuple_0));
                assert(decreases_to!(*elems => elems@));
                assert(decreases_to!(elems@ => elems@[i as int]));
                let child = emit_type(out, &elems[i], ev);
                emit_argument(out, owner, child, &elems[i], i, ev);
                i += 1;
            }
        },
        Form::Path { idents: _, args } => {
            let mut i: usize = 0;
            let mut position: usize = 0;
            while i < args.len()
                invariant
                    i <= args.len(),
                    position <= i,
                    ty.form is Path,
                    ty.form->args == *args,
                    position == types_before(args@, i as nat),
                    out@ == path_args(start, owner.0@, args@, i as nat, ev.deep_view()),
                decreases args.len() - i,
            {
                if let Arg::Type(inner) = &args[i] {
                    assert(decreases_to!(*ty => ty.form));
                    assert(decreases_to!(ty.form => ty.form->args));
                    assert(decreases_to!(*args => args@));
                    assert(decreases_to!(args@ => args@[i as int]));
                    let child = emit_type(out, inner, ev);
                    emit_argument(out, owner, child, inner, position, ev);
                    position += 1;
                }
                i += 1;
            }
        },
        Form::Other => {},
    }
}

// --- signatures and fields ---------------------------------------------------

pub open spec fn input_name(name: Option<String>) -> Text {
    match name {
        Some(name) => name@,
        None => "_"@,
    }
}

/// The first `n` parameters. `self` declares no type of interest, but has its
/// position.
pub open spec fn params(log: LogV, site: SiteV, owner: Text, inputs: Seq<Input>, n: nat) -> LogV
    decreases n,
{
    if n == 0 {
        log
    } else {
        let before = params(log, site, owner, inputs, (n - 1) as nat);
        match inputs[n - 1] {
            Input::Receiver => before,
            Input::Typed { name, ty, span } => typed(before, ty, site.evidence(span)).edge(
                EdgeV::new(EdgeKind::Param, owner, type_id(ty)).attr(
                    "name"@,
                    JsonV::Str(input_name(name)),
                ).attr("position"@, JsonV::Whole((n - 1) as u64)).evidence(site.evidence(span)),
            ),
        }
    }
}

/// A function's declared parameters and return type.
pub open spec fn signed(log: LogV, site: SiteV, owner: Text, signature: Prototype) -> LogV {
    let taken = params(log, site, owner, signature.inputs@, signature.inputs@.len());
    match signature.output {
        Some((ty, span)) => typed(taken, ty, site.evidence(span)).edge(
            EdgeV::new(EdgeKind::Returns, owner, type_id(ty)).evidence(site.evidence(span)),
        ),
        None => taken,
    }
}

fn emit_signature(out: &mut Writer, site: &Site, owner: &Id, signature: &Prototype)
    ensures
        final(out)@ == signed(old(out)@, site.deep_view(), owner.0@, *signature),
{
    let ghost start = out@;
    let inputs = &signature.inputs;
    let mut i: usize = 0;
    while i < inputs.len()
        invariant
            i <= inputs.len(),
            out@ == params(start, site.deep_view(), owner.0@, inputs@, i as nat),
        decreases inputs.len() - i,
    {
        if let Input::Typed { name, ty, span } = &inputs[i] {
            let ev = site.evidence(*span);
            let id = emit_type(out, ty, &ev);
            let shown = match name {
                Some(name) => Json::str(name.as_str()),
                None => Json::str("_"),
            };
            out.edge(
                Edge::new(EdgeKind::Param, owner.copy(), id).attr("name", shown).attr(
                    "position",
                    Json::Whole(i as u64),
                ).evidence(ev),
            );
        }
        i += 1;
    }
    if let Some((ty, span)) = &signature.output {
        let ev = site.evidence(*span);
        let id = emit_type(out, ty, &ev);
        out.edge(Edge::new(EdgeKind::Returns, owner.copy(), id).evidence(ev));
    }
}

/// What a field is called: by its name, or by its place where it has none.
pub open spec fn field_name(field: Field, position: nat) -> Text {
    match field.name {
        Some(name) => name@,
        None => text::decimal_of(position),
    }
}

/// The type a symbol declares.
pub open spec fn defined(log: LogV, owner: Text, name: Text, ev: EvidenceV) -> LogV {
    log.node(
        NodeV::new("type:"@ + name, NodeKind::Type).attr("text"@, JsonV::Str(name)),
    ).edge(EdgeV::new(EdgeKind::Defines, owner, "type:"@ + name).evidence(ev))
}

fn emit_defined(out: &mut Writer, owner: &Id, name: &str, ev: Evidence)
    ensures
        final(out)@ == defined(old(out)@, owner.0@, name@, ev.deep_view()),
{
    let id = Id::type_ref(name);
    out.node(Node::new(id.copy(), NodeKind::Type).attr("text", Json::str(name)));
    out.edge(Edge::new(EdgeKind::Defines, owner.copy(), id).evidence(ev));
}

pub open spec fn field_edges(log: LogV, site: SiteV, name: Text, fields: Seq<Field>, n: nat) -> LogV
    decreases n,
{
    if n == 0 {
        log
    } else {
        let field = fields[n - 1];
        typed(
            field_edges(log, site, name, fields, (n - 1) as nat),
            field.ty,
            site.evidence(field.span),
        ).edge(
            EdgeV::new(EdgeKind::HasField, "type:"@ + name, type_id(field.ty)).attr(
                "name"@,
                JsonV::Str(field_name(field, (n - 1) as nat)),
            ).evidence(site.evidence(field.span)),
        )
    }
}

/// A type's declared fields.
pub open spec fn shaped(
    log: LogV,
    site: SiteV,
    owner: Text,
    name: Text,
    fields: Seq<Field>,
    span: Extent,
) -> LogV {
    field_edges(
        defined(log, owner, name, site.evidence(span)),
        site,
        name,
        fields,
        fields.len(),
    )
}

fn emit_fields(
    out: &mut Writer,
    site: &Site,
    owner: &Id,
    name: &str,
    fields: &Vec<Field>,
    span: Extent,
)
    ensures
        final(out)@ == shaped(old(out)@, site.deep_view(), owner.0@, name@, fields@, span),
{
    emit_defined(out, owner, name, site.evidence(span));
    let ghost start = out@;
    let mut i: usize = 0;
    while i < fields.len()
        invariant
            i <= fields.len(),
            out@ == field_edges(start, site.deep_view(), name@, fields@, i as nat),
        decreases fields.len() - i,
    {
        let field = &fields[i];
        let ev = site.evidence(field.span);
        let id = emit_type(out, &field.ty, &ev);
        let shown = match &field.name {
            Some(name) => name.clone(),
            None => text::decimal(i as u64),
        };
        out.edge(
            Edge::new(EdgeKind::HasField, Id::type_ref(name), id).attr(
                "name",
                Json::Str(shown),
            ).evidence(ev),
        );
        i += 1;
    }
}

/// The first `n` variants, each as a type of its own that is read where the enum
/// is.
pub open spec fn variants_shaped(
    log: LogV,
    site: SiteV,
    owner: Text,
    name: Text,
    variants: Seq<Variant>,
    span: Extent,
    n: nat,
) -> LogV
    decreases n,
{
    if n == 0 {
        log
    } else {
        let variant = variants[n - 1];
        shaped(
            variants_shaped(log, site, owner, name, variants, span, (n - 1) as nat),
            site,
            owner,
            name + "::"@ + variant.name@,
            variant.fields@,
            span,
        )
    }
}

// --- effects -----------------------------------------------------------------

/// A capability is declared before an edge points at it.
pub open spec fn capable(log: LogV, id: Text) -> LogV {
    match text::without_prefix(id, "cap:"@) {
        Some(name) => log.node(named(NodeKind::Capability, id, name)),
        None => log,
    }
}

fn declare_capability(out: &mut Writer, id: &Id)
    ensures
        final(out)@ == capable(old(out)@, id.0@),
{
    if let Some(name) = text::strip_prefix(id.0.as_str(), "cap:") {
        out.node(named_node(NodeKind::Capability, id.copy(), name.as_str()));
    }
}

/// Where a value came from: not what it is but who decided it.
pub struct Provenance {
    /// How it was reached: a literal, a constant, a hop, or not at all.
    pub via: &'static str,
    /// The function it came out of, when it came out of one.
    pub source_fn: Option<String>,
    /// The environment variables that function reads, when it reads any.
    pub env_var: Option<String>,
}

pub struct ProvenanceV {
    pub via: Text,
    pub source_fn: Option<Text>,
    pub env_var: Option<Text>,
}

impl DeepView for Provenance {
    type V = ProvenanceV;

    open spec fn deep_view(&self) -> ProvenanceV {
        ProvenanceV {
            via: self.via@,
            source_fn: self.source_fn.deep_view(),
            env_var: self.env_var.deep_view(),
        }
    }
}

impl ProvenanceV {
    pub open spec fn new(via: Text) -> ProvenanceV {
        ProvenanceV { via, source_fn: None, env_var: None }
    }
}

impl Provenance {
    fn new(via: &'static str) -> (p: Provenance)
        ensures
            p.deep_view() == ProvenanceV::new(via@),
    {
        Provenance { via, source_fn: None, env_var: None }
    }
}

/// An effect, against the innermost enclosing symbol. Test code is marked
/// rather than dropped.
pub open spec fn effect_edge(
    site: SiteV,
    kind: EdgeKind,
    to: Text,
    op: Text,
    span: Extent,
    from: ProvenanceV,
) -> EdgeV {
    let edge = EdgeV::new(kind, site.container(), to).attr("op"@, JsonV::Str(op)).evidence(
        site.evidence(span),
    );
    let edge = if from.via == "const"@ || from.via == "fn"@ || from.via == "binding"@ {
        edge.inferred(from.via)
    } else if from.via == "unresolved"@ || from.via == "env"@ {
        edge.attr("via"@, JsonV::Str(from.via))
    } else {
        edge
    };
    let edge = match from.source_fn {
        Some(f) => edge.attr("source_fn"@, JsonV::Str(f)),
        None => edge,
    };
    let edge = match from.env_var {
        Some(vars) => edge.attr("env_var"@, JsonV::Str(vars)),
        None => edge,
    };
    edge.in_test(site.in_test)
}

pub open spec fn effect(
    log: LogV,
    site: SiteV,
    kind: EdgeKind,
    to: Text,
    op: Text,
    span: Extent,
    from: ProvenanceV,
) -> LogV {
    capable(log, to).edge(effect_edge(site, kind, to, op, span, from))
}

fn emit_effect(
    out: &mut Writer,
    site: &Site,
    kind: EdgeKind,
    to: Id,
    op: &str,
    span: Extent,
    from: Provenance,
)
    ensures
        final(out)@ == effect(
            old(out)@,
            site.deep_view(),
            kind,
            to.0@,
            op@,
            span,
            from.deep_view(),
        ),
{
    declare_capability(out, &to);
    let edge = Edge::new(kind, site.container(), to).attr("op", Json::str(op)).evidence(
        site.evidence(span),
    );
    let via = from.via;
    let edge = if text::same(via, "const") || text::same(via, "fn") || text::same(via, "binding") {
        edge.inferred(via)
    } else if text::same(via, "unresolved") || text::same(via, "env") {
        edge.attr("via", Json::str(via))
    } else {
        edge
    };
    let edge = match from.source_fn {
        Some(f) => edge.attr("source_fn", Json::Str(f)),
        None => edge,
    };
    let edge = match from.env_var {
        Some(vars) => edge.attr("env_var", Json::Str(vars)),
        None => edge,
    };
    out.edge(edge.in_test(site.in_test));
}

/// Unsafety of some form, against a symbol.
pub open spec fn unsafe_at(log: LogV, site: SiteV, owner: Text, form: Text, span: Extent) -> LogV {
    capable(log, "cap:"@ + "unsafe"@).edge(
        EdgeV::new(EdgeKind::UnsafeAt, owner, "cap:"@ + "unsafe"@).attr(
            "form"@,
            JsonV::Str(form),
        ).evidence(site.evidence(span)),
    )
}

fn emit_unsafe(out: &mut Writer, site: &Site, owner: Id, form: &str, span: Extent)
    ensures
        final(out)@ == unsafe_at(old(out)@, site.deep_view(), owner.0@, form@, span),
{
    let to = Id::capability("unsafe");
    declare_capability(out, &to);
    out.edge(
        Edge::new(EdgeKind::UnsafeAt, owner, to).attr("form", Json::str(form)).evidence(
            site.evidence(span),
        ),
    );
}

// --- calls and values --------------------------------------------------------

/// A path through this file's aliases, so that `Proc::new` reads as
/// `std::process::Command::new` where `Proc` was renamed.
pub open spec fn canonical(aliases: Seq<(Text, Text)>, path: Text) -> Text {
    match text::cut(path, "::"@) {
        None => match table::lookup(aliases, path) {
            Some(full) => full,
            None => path,
        },
        Some((head, rest)) => match table::lookup(aliases, head) {
            Some(full) => full + "::"@ + rest,
            None => path,
        },
    }
}

fn canonical_path(aliases: &Table<String>, path: &str) -> (out: String)
    ensures
        out@ == canonical(aliases.deep_view(), path@),
{
    match text::split_once(path, "::") {
        None => match aliases.get(path) {
            Some(full) => full.clone(),
            None => path.to_owned(),
        },
        Some((head, rest)) => match aliases.get(head.as_str()) {
            Some(full) => text::cat3(full.as_str(), "::", rest.as_str()),
            None => path.to_owned(),
        },
    }
}

/// Who calls what, by name: only a name that the workspace declares somewhere,
/// and always as inferred, since two functions of one name are not told apart.
pub open spec fn calls(
    log: LogV,
    site: SiteV,
    name: Text,
    path: Text,
    form: Text,
    span: Extent,
) -> LogV {
    if name.len() == 0 || table::lookup(site.facts.defined, name) is None {
        log
    } else {
        let to = "ext:"@ + name;
        let edge = EdgeV::new(EdgeKind::Calls, site.container(), to).attr(
            "form"@,
            JsonV::Str(form),
        ).inferred("name"@).evidence(site.evidence(span));
        let edge = if path != name {
            edge.attr("path"@, JsonV::Str(path))
        } else {
            edge
        };
        log.node(named(NodeKind::External, to, name)).edge(edge.in_test(site.in_test))
    }
}

fn emit_calls(out: &mut Writer, site: &Site, name: &str, path: &str, form: &str, span: Extent)
    ensures
        final(out)@ == calls(old(out)@, site.deep_view(), name@, path@, form@, span),
{
    if text::is_empty(name) || !site.facts.defined.contains(name) {
        return;
    }
    let to = Id::external(name);
    out.node(named_node(NodeKind::External, to.copy(), name));
    let edge = Edge::new(EdgeKind::Calls, site.container(), to).attr(
        "form",
        Json::str(form),
    ).inferred("name").evidence(site.evidence(span));
    let edge = if !text::same(path, name) {
        edge.attr("path", Json::str(path))
    } else {
        edge
    };
    out.edge(edge.in_test(site.in_test));
}

/// What string an argument will hold.
pub enum Resolved {
    /// One that can be named, and how it was reached.
    Value(String, &'static str),
    /// One that cannot, but that comes out of this function.
    From(String),
    Unresolved,
}

pub enum ResolvedV {
    Value(Text, Text),
    From(Text),
    Unresolved,
}

impl DeepView for Resolved {
    type V = ResolvedV;

    open spec fn deep_view(&self) -> ResolvedV {
        match self {
            Resolved::Value(s, via) => ResolvedV::Value(s@, via@),
            Resolved::From(f) => ResolvedV::From(f@),
            Resolved::Unresolved => ResolvedV::Unresolved,
        }
    }
}

/// What comes out of a function, when that is known.
pub open spec fn returned(facts: SharedV, f: Text) -> ResolvedV {
    match table::lookup(facts.literal_fns, f) {
        Some(v) => ResolvedV::Value(v, "fn"@),
        None => ResolvedV::From(f),
    }
}

fn returned_by(facts: &Shared, f: &str) -> (r: Resolved)
    ensures
        r.deep_view() == returned(facts.deep_view(), f@),
{
    match facts.literal_fns.get(f) {
        Some(v) => Resolved::Value(v.clone(), "fn"),
        None => Resolved::From(f.to_owned()),
    }
}

/// A method that hands on the text it is called on, in an argument.
pub open spec fn passes_on(name: Text) -> bool {
    name == "to_string"@ || name == "to_owned"@ || name == "into"@ || name == "as_str"@ || name
        == "clone"@ || name == "as_ref"@ || name == "to_path_buf"@ || name == "display"@
}

fn is_passing(name: &str) -> (r: bool)
    ensures
        r == passes_on(name@),
{
    text::same(name, "to_string") || text::same(name, "to_owned") || text::same(name, "into")
        || text::same(name, "as_str") || text::same(name, "clone") || text::same(name, "as_ref")
        || text::same(name, "to_path_buf") || text::same(name, "display")
}

/// The string an argument will hold, following at most one binding, one
/// constant or one function that is just a literal.
pub open spec fn resolved(
    facts: SharedV,
    bindings: Seq<(Text, BindingV)>,
    e: Expression,
) -> ResolvedV
    decreases e,
{
    match e {
        Expression::Str(s) => ResolvedV::Value(s@, "literal"@),
        Expression::Reference(inner) => resolved(facts, bindings, *inner),
        Expression::Try(inner) => resolved(facts, bindings, *inner),
        Expression::Path(idents) => match syntax::last_of(idents.deep_view()) {
            None => ResolvedV::Unresolved,
            Some(name) => match table::lookup(bindings, name) {
                Some(BindingV::Literal(v)) => ResolvedV::Value(v, "binding"@),
                Some(BindingV::Call(f)) => returned(facts, f),
                None => match table::lookup(facts.constants, name) {
                    Some(v) => ResolvedV::Value(v, "const"@),
                    None => ResolvedV::Unresolved,
                },
            },
        },
        Expression::Call(func) => match syntax::path_of(*func) {
            Some(path) => returned(facts, syntax::bare(path)),
            None => ResolvedV::Unresolved,
        },
        Expression::Method { name, receiver } => if passes_on(name@) {
            resolved(facts, bindings, *receiver)
        } else {
            ResolvedV::Unresolved
        },
        _ => ResolvedV::Unresolved,
    }
}

fn resolve_string_arg(facts: &Shared, bindings: &Table<Binding>, e: &Expression) -> (r: Resolved)
    ensures
        r.deep_view() == resolved(facts.deep_view(), bindings.deep_view(), *e),
    decreases e,
{
    match e {
        Expression::Str(s) => Resolved::Value(s.clone(), "literal"),
        Expression::Reference(inner) => resolve_string_arg(facts, bindings, inner),
        Expression::Try(inner) => resolve_string_arg(facts, bindings, inner),
        Expression::Path(idents) => match syntax::last_ident(idents) {
            None => Resolved::Unresolved,
            Some(name) => match bindings.get(name.as_str()) {
                Some(Binding::Literal(v)) => Resolved::Value(v.clone(), "binding"),
                Some(Binding::Call(f)) => returned_by(facts, f.as_str()),
                None => match facts.constants.get(name.as_str()) {
                    Some(v) => Resolved::Value(v.clone(), "const"),
                    None => Resolved::Unresolved,
                },
            },
        },
        Expression::Call(func) => match syntax::callee_path(func) {
            Some(path) => returned_by(facts, text::after_last(path.as_str(), "::").as_str()),
            None => Resolved::Unresolved,
        },
        Expression::Method { name, receiver } => if is_passing(name.as_str()) {
            resolve_string_arg(facts, bindings, receiver)
        } else {
            Resolved::Unresolved
        },
        _ => Resolved::Unresolved,
    }
}

/// The first `n` names, in order and each once.
pub open spec fn sorted(names: Seq<Text>, n: nat) -> Seq<(Text, ())>
    decreases n,
{
    if n == 0 {
        seq![]
    } else {
        table::put(sorted(names, (n - 1) as nat), names[n - 1], ())
    }
}

pub open spec fn keys<V>(rows: Seq<(Text, V)>) -> Seq<Text> {
    Seq::new(rows.len(), |i: int| rows[i].0)
}

/// The variables a function reads, as they are shown: in order, each once, and
/// marked where there are more.
pub open spec fn shown_vars(facts: SharedV, f: Text) -> Option<Text> {
    match table::lookup(facts.reads_env, f) {
        None => None,
        Some(vars) => {
            let shown = text::joined(keys(sorted(vars, vars.len())), ","@);
            Some(
                if table::lookup(facts.truncated, f) is Some {
                    shown + ",…"@
                } else {
                    shown
                },
            )
        },
    }
}

fn show_vars(facts: &Shared, f: &str) -> (shown: Option<String>)
    ensures
        shown.deep_view() == shown_vars(facts.deep_view(), f@),
{
    let vars = match facts.reads_env.get(f) {
        Some(vars) => vars,
        None => return None,
    };
    let mut names: Names = Table::new();
    let mut i: usize = 0;
    while i < vars.len()
        invariant
            i <= vars.len(),
            names.deep_view() == sorted(vars.deep_view(), i as nat),
        decreases vars.len() - i,
    {
        let _ = names.insert(vars[i].clone(), ());
        i += 1;
    }
    let shown = text::join(&names.names(), ",");
    if facts.truncated.contains(f) {
        Some(text::cat(shown.as_str(), ",…"))
    } else {
        Some(shown)
    }
}

/// What an effect is aimed at and who decided it. What comes out of a function
/// that reads the environment is chosen by whoever sets the variables.
pub open spec fn target(facts: SharedV, r: ResolvedV) -> (Text, ProvenanceV) {
    match r {
        ResolvedV::Value(v, via) => (v, ProvenanceV::new(via)),
        ResolvedV::From(f) => (
            "<dynamic>"@,
            match shown_vars(facts, f) {
                Some(vars) if vars.len() > 0 => ProvenanceV {
                    via: "env"@,
                    source_fn: Some(f),
                    env_var: Some(vars),
                },
                _ => ProvenanceV { via: "fn"@, source_fn: Some(f), env_var: None },
            },
        ),
        ResolvedV::Unresolved => ("<dynamic>"@, ProvenanceV::new("unresolved"@)),
    }
}

fn spawn_target(facts: &Shared, r: Resolved) -> (t: (String, Provenance))
    ensures
        t.deep_view() == target(facts.deep_view(), r.deep_view()),
{
    match r {
        Resolved::Value(v, via) => (v, Provenance::new(via)),
        Resolved::From(f) => {
            let vars = match show_vars(facts, f.as_str()) {
                Some(vars) => if text::is_empty(vars.as_str()) {
                    None
                } else {
                    Some(vars)
                },
                None => None,
            };
            match vars {
                Some(vars) => (
                    "<dynamic>".to_owned(),
                    Provenance { via: "env", source_fn: Some(f), env_var: Some(vars) },
                ),
                None => (
                    "<dynamic>".to_owned(),
                    Provenance { via: "fn", source_fn: Some(f), env_var: None },
                ),
            }
        },
        Resolved::Unresolved => ("<dynamic>".to_owned(), Provenance::new("unresolved")),
    }
}

/// What the first argument is aimed at.
pub open spec fn aimed(
    facts: SharedV,
    bindings: Seq<(Text, BindingV)>,
    args: Seq<Expression>,
) -> (Text, ProvenanceV) {
    target(
        facts,
        if args.len() == 0 {
            ResolvedV::Unresolved
        } else {
            resolved(facts, bindings, args[0])
        },
    )
}

fn aim(facts: &Shared, bindings: &Table<Binding>, args: &Vec<Expression>) -> (t: (String, Provenance))
    ensures
        t.deep_view() == aimed(facts.deep_view(), bindings.deep_view(), args@),
{
    let r = if args.len() == 0 {
        Resolved::Unresolved
    } else {
        resolve_string_arg(facts, bindings, &args[0])
    };
    spawn_target(facts, r)
}

pub open spec fn touches_env(path: Text) -> bool {
    text::has_suffix(path, "env::var"@) || text::has_suffix(path, "env::var_os"@)
        || text::has_suffix(path, "env::set_var"@) || text::has_suffix(path, "env::remove_var"@)
}

/// A call: whom it reaches by name, and the effect it has by its path. Starting
/// a process goes before the rest, then the environment, then ending the
/// process, the filesystem and the network.
pub open spec fn call(
    log: LogV,
    site: SiteV,
    bindings: Seq<(Text, BindingV)>,
    func: Expression,
    args: Seq<Expression>,
    span: Extent,
) -> LogV {
    match syntax::path_of(func) {
        None => log,
        Some(raw) => {
            let path = canonical(site.aliases, raw);
            let log = calls(log, site, syntax::bare(path), path, "path"@, span);
            let (name, from) = aimed(site.facts, bindings, args);
            let literal = ProvenanceV::new("literal"@);
            if text::has_suffix(path, "Command::new"@) {
                let to = "proc:"@ + name;
                effect(
                    log.node(named(NodeKind::Process, to, name)),
                    site,
                    EdgeKind::Spawns,
                    to,
                    path,
                    span,
                    from,
                )
            } else if touches_env(path) {
                let to = "env:"@ + name;
                effect(
                    log.node(named(NodeKind::EnvVar, to, name)),
                    site,
                    EdgeKind::ReadsEnv,
                    to,
                    path,
                    span,
                    from,
                )
            } else if text::has_suffix(path, "process::exit"@) || text::has_suffix(
                path,
                "process::abort"@,
            ) {
                effect(log, site, EdgeKind::EffectExec, "cap:"@ + "exec"@, path, span, literal)
            } else if text::has_part(path, "fs::"@) {
                effect(log, site, EdgeKind::EffectFs, "cap:"@ + "fs"@, path, span, literal)
            } else if syntax::on_network(path) {
                effect(log, site, EdgeKind::EffectNet, "cap:"@ + "net"@, path, span, literal)
            } else {
                log
            }
        },
    }
}

fn emit_call(
    out: &mut Writer,
    site: &Site,
    bindings: &Table<Binding>,
    func: &Expression,
    args: &Vec<Expression>,
    span: Extent,
)
    ensures
        final(out)@ == call(
            old(out)@,
            site.deep_view(),
            bindings.deep_view(),
            *func,
            args@,
            span,
        ),
{
    let raw = match syntax::callee_path(func) {
        Some(raw) => raw,
        None => return,
    };
    let full = canonical_path(site.aliases, raw.as_str());
    let path = full.as_str();
    let name = text::after_last(path, "::");
    emit_calls(out, site, name.as_str(), path, "path", span);
    if text::ends_with(path, "Command::new") {
        let (name, from) = aim(site.facts, bindings, args);
        let to = Id::process(name.as_str());
        out.node(named_node(NodeKind::Process, to.copy(), name.as_str()));
        emit_effect(out, site, EdgeKind::Spawns, to, path, span, from);
    } else if text::ends_with(path, "env::var") || text::ends_with(path, "env::var_os")
        || text::ends_with(path, "env::set_var") || text::ends_with(path, "env::remove_var") {
        let (name, from) = aim(site.facts, bindings, args);
        let to = Id::env_var(name.as_str());
        out.node(named_node(NodeKind::EnvVar, to.copy(), name.as_str()));
        emit_effect(out, site, EdgeKind::ReadsEnv, to, path, span, from);
    } else if text::ends_with(path, "process::exit") || text::ends_with(path, "process::abort") {
        let to = Id::capability("exec");
        emit_effect(out, site, EdgeKind::EffectExec, to, path, span, Provenance::new("literal"));
    } else if text::contains(path, "fs::") {
        let to = Id::capability("fs");
        emit_effect(out, site, EdgeKind::EffectFs, to, path, span, Provenance::new("literal"));
    } else if syntax::is_net_path(path) {
        let to = Id::capability("net");
        emit_effect(out, site, EdgeKind::EffectNet, to, path, span, Provenance::new("literal"));
    }
}

/// What one argument hands to a subprocess. A literal is kept as it is.
pub open spec fn spawn_arg(site: SiteV, value: Text, from: ProvenanceV, span: Extent) -> EdgeV {
    let edge = EdgeV::new(EdgeKind::SpawnArg, site.container(), "cap:"@ + "exec"@).attr(
        "via"@,
        JsonV::Str(from.via),
    ).evidence(site.evidence(span));
    let edge = if from.via == "literal"@ {
        edge.attr("value"@, JsonV::Str(value))
    } else {
        edge
    };
    edge.in_test(site.in_test)
}

pub open spec fn spawn_args(
    log: LogV,
    site: SiteV,
    bindings: Seq<(Text, BindingV)>,
    args: Seq<Expression>,
    span: Extent,
    n: nat,
) -> LogV
    decreases n,
{
    if n == 0 {
        log
    } else {
        let (value, from) = target(site.facts, resolved(site.facts, bindings, args[n - 1]));
        capable(
            spawn_args(log, site, bindings, args, span, (n - 1) as nat),
            "cap:"@ + "exec"@,
        ).edge(spawn_arg(site, value, from, span))
    }
}

/// A method call: whom it reaches by name, and what `arg` and `args` hand to a
/// subprocess, against the enclosing function.
pub open spec fn method(
    log: LogV,
    site: SiteV,
    bindings: Seq<(Text, BindingV)>,
    name: Text,
    args: Seq<Expression>,
    span: Extent,
) -> LogV {
    let log = calls(log, site, name, name, "method"@, span);
    if name == "arg"@ || name == "args"@ {
        spawn_args(log, site, bindings, args, span, args.len())
    } else {
        log
    }
}

fn emit_method(
    out: &mut Writer,
    site: &Site,
    bindings: &Table<Binding>,
    name: &str,
    args: &Vec<Expression>,
    span: Extent,
)
    ensures
        final(out)@ == method(
            old(out)@,
            site.deep_view(),
            bindings.deep_view(),
            name@,
            args@,
            span,
        ),
{
    emit_calls(out, site, name, name, "method", span);
    if !text::same(name, "arg") && !text::same(name, "args") {
        return;
    }
    let ghost start = out@;
    let mut i: usize = 0;
    while i < args.len()
        invariant
            i <= args.len(),
            out@ == spawn_args(
                start,
                site.deep_view(),
                bindings.deep_view(),
                args@,
                span,
                i as nat,
            ),
        decreases args.len() - i,
    {
        let (value, from) = spawn_target(
            site.facts,
            resolve_string_arg(site.facts, bindings, &args[i]),
        );
        let to = Id::capability("exec");
        declare_capability(out, &to);
        let edge = Edge::new(EdgeKind::SpawnArg, site.container(), to).attr(
            "via",
            Json::str(from.via),
        ).evidence(site.evidence(span));
        let edge = if text::same(from.via, "literal") {
            edge.attr("value", Json::Str(value))
        } else {
            edge
        };
        out.edge(edge.in_test(site.in_test));
        i += 1;
    }
}

// --- what an effect is aimed at ----------------------------------------------

/// Whether the last that a log was told is an edge of a kind from one id to
/// another, seen where a span stands.
pub open spec fn ends_with_edge(
    log: LogV,
    site: SiteV,
    kind: EdgeKind,
    from: Text,
    to: Text,
    span: Extent,
) -> bool {
    &&& log.facts.len() > 0
    &&& log.facts.last() matches FactV::Edge(e) && e.kind == kind && e.from == from && e.to == to
        && e.ev.len() == 1 && e.ev[0].file == schema::path_shown(site.rel_path) && (
    span.start_line > 0 ==> e.ev[0].line.0 == span.start_line) && (span.start_line > 0
        && span.end_line >= span.start_line ==> e.ev[0].line.1 == span.end_line)
}

/// An attribute of the edge that a log was told last.
pub open spec fn last_attr(log: LogV, key: Text) -> Option<JsonV> {
    table::lookup(log.facts.last()->Edge_0.attrs, key)
}

proof fn lemma_edge_attr(edge: EdgeV, key: Text, value: JsonV)
    ensures
        edge.attr(key, value).kind == edge.kind,
        edge.attr(key, value).from == edge.from,
        edge.attr(key, value).to == edge.to,
        edge.attr(key, value).ev == edge.ev,
        table::lookup(edge.attr(key, value).attrs, key) == Some(value),
        forall|other: Text|
            other != key ==> #[trigger] table::lookup(edge.attr(key, value).attrs, other)
                == table::lookup(edge.attrs, other),
{
    json::lemma_with_field(edge.attrs, key, value, key);
    assert forall|other: Text| other != key implies #[trigger] table::lookup(
        edge.attr(key, value).attrs,
        other,
    ) == table::lookup(edge.attrs, other) by {
        json::lemma_with_field(edge.attrs, key, value, other);
    }
}

/// An effect is told as an edge of its kind from the innermost symbol to what it
/// reaches, with the path that was called and where its target came from; in test
/// code it is marked so.
#[verifier::rlimit(40)]
pub proof fn lemma_effect_told(
    log: LogV,
    site: SiteV,
    kind: EdgeKind,
    to: Text,
    op: Text,
    span: Extent,
    from: ProvenanceV,
)
    ensures
        ({
            let after = effect(log, site, kind, to, op, span, from);
            &&& site.symbols.len() > 0 ==> ends_with_edge(
                after,
                site,
                kind,
                site.symbols.last(),
                to,
                span,
            )
            &&& site.symbols.len() == 0 ==> ends_with_edge(
                after,
                site,
                kind,
                site.file_id,
                to,
                span,
            )
            &&& last_attr(after, "op"@) == Some(JsonV::Str(op))
            &&& from.via == "binding"@ || from.via == "const"@ || from.via == "fn"@ ==> last_attr(
                after,
                "via"@,
            ) == Some(JsonV::Str(from.via)) && last_attr(after, "confidence"@) == Some(
                JsonV::Str("inferred"@),
            )
            &&& from.via == "unresolved"@ || from.via == "env"@ ==> last_attr(after, "via"@)
                == Some(JsonV::Str(from.via)) && last_attr(after, "confidence"@) is None
            &&& from.via == "literal"@ ==> last_attr(after, "via"@) is None && last_attr(
                after,
                "confidence"@,
            ) is None
            &&& from.source_fn matches Some(f) ==> last_attr(after, "source_fn"@) == Some(
                JsonV::Str(f),
            )
            &&& from.source_fn is None ==> last_attr(after, "source_fn"@) is None
            &&& from.env_var matches Some(vars) ==> last_attr(after, "env_var"@) == Some(
                JsonV::Str(vars),
            )
            &&& from.env_var is None ==> last_attr(after, "env_var"@) is None
            &&& site.in_test ==> last_attr(after, "role"@) == Some(JsonV::Str("test"@))
            &&& !site.in_test ==> last_attr(after, "role"@) is None
            &&& forall|id: Text| log.seen.contains(id) ==> #[trigger] after.seen.contains(id)
        }),
{
    reveal_strlit("op");
    reveal_strlit("via");
    reveal_strlit("confidence");
    reveal_strlit("source_fn");
    reveal_strlit("env_var");
    reveal_strlit("role");
    reveal_strlit("binding");
    reveal_strlit("const");
    reveal_strlit("fn");
    reveal_strlit("unresolved");
    reveal_strlit("env");
    reveal_strlit("literal");
    assert("binding"@.len() == 7 && "literal"@.len() == 7 && "binding"@[0] != "literal"@[0]);
    assert("const"@.len() == 5 && "fn"@.len() == 2 && "unresolved"@.len() == 10 && "env"@.len() == 3);
    assert("op"@.len() == 2 && "via"@.len() == 3 && "confidence"@.len() == 10);
    assert("source_fn"@.len() == 9 && "env_var"@.len() == 7 && "role"@.len() == 4);
    let e0 = EdgeV::new(kind, site.container(), to);
    let e1 = e0.attr("op"@, JsonV::Str(op));
    lemma_edge_attr(e0, "op"@, JsonV::Str(op));
    let e2 = e1.evidence(site.evidence(span));
    let e3 = if from.via == "const"@ || from.via == "fn"@ || from.via == "binding"@ {
        lemma_edge_attr(e2, "confidence"@, JsonV::Str("inferred"@));
        lemma_edge_attr(
            e2.attr("confidence"@, JsonV::Str("inferred"@)),
            "via"@,
            JsonV::Str(from.via),
        );
        e2.inferred(from.via)
    } else if from.via == "unresolved"@ || from.via == "env"@ {
        lemma_edge_attr(e2, "via"@, JsonV::Str(from.via));
        e2.attr("via"@, JsonV::Str(from.via))
    } else {
        e2
    };
    let e4 = match from.source_fn {
        Some(f) => {
            lemma_edge_attr(e3, "source_fn"@, JsonV::Str(f));
            e3.attr("source_fn"@, JsonV::Str(f))
        },
        None => e3,
    };
    let e5 = match from.env_var {
        Some(vars) => {
            lemma_edge_attr(e4, "env_var"@, JsonV::Str(vars));
            e4.attr("env_var"@, JsonV::Str(vars))
        },
        None => e4,
    };
    lemma_edge_attr(e5, "role"@, JsonV::Str("test"@));
    assert(effect_edge(site, kind, to, op, span, from) == e5.in_test(site.in_test));
}

/// What names a program or a variable, however it is written: a literal is what
/// it says, and a name that a `let` has just bound to a literal is that literal,
/// whatever the name.
pub proof fn lemma_literal_named(
    facts: SharedV,
    before: Seq<(Text, BindingV)>,
    s: String,
    name: String,
    idents: Vec<String>,
)
    requires
        idents@.len() > 0,
        idents@.last()@ == name@,
    ensures
        target(facts, resolved(facts, before, Expression::Str(s))).0 == s@,
        ({
            let bindings = binding(before, Pattern::Ident(name), Some(Expression::Str(s)));
            target(facts, resolved(facts, bindings, Expression::Path(idents))).0 == s@
        }),
{
    let bindings = binding(before, Pattern::Ident(name), Some(Expression::Str(s)));
    table::lemma_put_lookup(before, name@, BindingV::Literal(s@), name@);
    assert(idents.deep_view().last() == name@);
}

/// The target behind a name that is bound to a literal is that literal. Renaming
/// the local changes nothing.
pub proof fn lemma_bound_literal(
    facts: SharedV,
    bindings: Seq<(Text, BindingV)>,
    renamed: Seq<(Text, BindingV)>,
    x: Vec<String>,
    y: Vec<String>,
    value: Text,
)
    requires
        x@.len() > 0,
        y@.len() > 0,
        table::lookup(bindings, x@.last()@) == Some(BindingV::Literal(value)),
        table::lookup(renamed, y@.last()@) == Some(BindingV::Literal(value)),
    ensures
        resolved(facts, bindings, Expression::Path(x)) == ResolvedV::Value(value, "binding"@),
        resolved(facts, renamed, Expression::Path(y)) == resolved(
            facts,
            bindings,
            Expression::Path(x),
        ),
        target(facts, resolved(facts, bindings, Expression::Path(x))).0 == value,
{
    assert(x.deep_view().last() == x@.last()@);
    assert(y.deep_view().last() == y@.last()@);
}

/// A name that nothing in the function binds is the constant of that name, where
/// the workspace has one, and otherwise cannot be told.
pub proof fn lemma_constant_named(
    facts: SharedV,
    bindings: Seq<(Text, BindingV)>,
    x: Vec<String>,
)
    requires
        x@.len() > 0,
        table::lookup(bindings, x@.last()@) is None,
    ensures
        table::lookup(facts.constants, x@.last()@) matches Some(value) ==> target(
            facts,
            resolved(facts, bindings, Expression::Path(x)),
        ) == (value, ProvenanceV { via: "const"@, source_fn: None, env_var: None }),
        table::lookup(facts.constants, x@.last()@) is None ==> target(
            facts,
            resolved(facts, bindings, Expression::Path(x)),
        ) == ("<dynamic>"@, ProvenanceV { via: "unresolved"@, source_fn: None, env_var: None }),
{
    assert(x.deep_view().last() == x@.last()@);
}

/// A name that is bound to a call is aimed where the call itself would be.
pub proof fn lemma_bound_call(
    facts: SharedV,
    bindings: Seq<(Text, BindingV)>,
    x: Vec<String>,
    func: Box<Expression>,
)
    requires
        x@.len() > 0,
        *func is Path,
        table::lookup(bindings, x@.last()@) == syntax::bound(Expression::Call(func)),
    ensures
        resolved(facts, bindings, Expression::Path(x)) == resolved(
            facts,
            bindings,
            Expression::Call(func),
        ),
{
    assert(x.deep_view().last() == x@.last()@);
}

/// A function that is just a literal stands for it; one that is not is named, and
/// where it reads the environment, so are the variables that it reads.
pub proof fn lemma_function_named(facts: SharedV, f: Text)
    ensures
        table::lookup(facts.literal_fns, f) matches Some(value) ==> target(
            facts,
            returned(facts, f),
        ) == (value, ProvenanceV { via: "fn"@, source_fn: None, env_var: None }),
        table::lookup(facts.literal_fns, f) is None && table::lookup(facts.reads_env, f) is None
            ==> target(facts, returned(facts, f)) == (
            "<dynamic>"@,
            ProvenanceV { via: "fn"@, source_fn: Some(f), env_var: None },
        ),
        forall|var: Text|
            table::lookup(facts.literal_fns, f) is None && #[trigger] table::lookup(
                facts.reads_env,
                f,
            ) == Some(seq![var]) && var.len() > 0 && table::lookup(facts.truncated, f) is None
                ==> target(facts, returned(facts, f)) == (
                "<dynamic>"@,
                ProvenanceV { via: "env"@, source_fn: Some(f), env_var: Some(var) },
            ),
{
    assert forall|var: Text|
        table::lookup(facts.literal_fns, f) is None && #[trigger] table::lookup(facts.reads_env, f)
            == Some(seq![var]) && var.len() > 0 && table::lookup(facts.truncated, f) is None implies
        shown_vars(facts, f) == Some(var) by {
        let vars = seq![var];
        assert(sorted(vars, 0) =~= seq![]);
        assert(sorted(vars, 1) =~= seq![(var, ())]);
        assert(keys(sorted(vars, 1)) =~= seq![var]);
        assert(text::joined(seq![var], ","@) =~= var);
    }
}

/// A reference, a `?` and a conversion do not change what is meant.
pub proof fn lemma_seen_through(
    facts: SharedV,
    bindings: Seq<(Text, BindingV)>,
    inner: Box<Expression>,
    name: String,
)
    ensures
        resolved(facts, bindings, Expression::Reference(inner)) == resolved(facts, bindings, *inner),
        resolved(facts, bindings, Expression::Try(inner)) == resolved(facts, bindings, *inner),
        name@ == "to_string"@ || name@ == "to_owned"@ || name@ == "into"@ || name@ == "as_str"@
            || name@ == "clone"@ || name@ == "as_ref"@ || name@ == "to_path_buf"@ || name@
            == "display"@ ==> resolved(
            facts,
            bindings,
            Expression::Method { name, receiver: inner },
        ) == resolved(facts, bindings, *inner),
{
}

/// Starting a program, or touching a variable, that a literal names is told as an
/// edge to that program or variable, and that is a node of the stream by then.
pub proof fn lemma_literal_reached(
    log: LogV,
    site: SiteV,
    before: Seq<(Text, BindingV)>,
    func: Expression,
    args: Seq<Expression>,
    bound: Seq<Expression>,
    s: String,
    name: String,
    idents: Vec<String>,
    span: Extent,
    raw: Text,
)
    requires
        site.symbols.len() > 0,
        syntax::path_of(func) == Some(raw),
        args.len() > 0,
        args[0] == Expression::Str(s),
        bound.len() > 0,
        bound[0] == Expression::Path(idents),
        idents@.len() > 0,
        idents@.last()@ == name@,
    ensures
        ({
            let plain = call(log, site, before, func, args, span);
            let bindings = binding(before, Pattern::Ident(name), Some(Expression::Str(s)));
            let through = call(log, site, bindings, func, bound, span);
            let path = canonical(site.aliases, raw);
            let owner = site.symbols.last();
            &&& text::has_suffix(path, "Command::new"@) ==> {
                &&& ends_with_edge(plain, site, EdgeKind::Spawns, owner, "proc:"@ + s@, span)
                &&& ends_with_edge(through, site, EdgeKind::Spawns, owner, "proc:"@ + s@, span)
                &&& plain.seen.contains("proc:"@ + s@) && through.seen.contains("proc:"@ + s@)
                &&& last_attr(plain, "via"@) is None
                &&& last_attr(through, "via"@) == Some(JsonV::Str("binding"@))
            }
            &&& (text::has_suffix(path, "env::var"@) || text::has_suffix(path, "env::var_os"@)
                || text::has_suffix(path, "env::set_var"@) || text::has_suffix(
                path,
                "env::remove_var"@,
            )) && !text::has_suffix(path, "Command::new"@) ==> {
                &&& ends_with_edge(plain, site, EdgeKind::ReadsEnv, owner, "env:"@ + s@, span)
                &&& ends_with_edge(through, site, EdgeKind::ReadsEnv, owner, "env:"@ + s@, span)
                &&& plain.seen.contains("env:"@ + s@) && through.seen.contains("env:"@ + s@)
            }
        }),
{
    let bindings = binding(before, Pattern::Ident(name), Some(Expression::Str(s)));
    lemma_literal_named(site.facts, before, s, name, idents);
    table::lemma_put_lookup(before, name@, BindingV::Literal(s@), name@);
    assert(idents.deep_view().last() == name@);
    let path = canonical(site.aliases, raw);
    let log = calls(log, site, syntax::bare(path), path, "path"@, span);
    let one = ProvenanceV::new("literal"@);
    let two = ProvenanceV::new("binding"@);
    let proc = log.node(named(NodeKind::Process, "proc:"@ + s@, s@));
    let env = log.node(named(NodeKind::EnvVar, "env:"@ + s@, s@));
    lemma_effect_told(proc, site, EdgeKind::Spawns, "proc:"@ + s@, path, span, one);
    lemma_effect_told(proc, site, EdgeKind::Spawns, "proc:"@ + s@, path, span, two);
    lemma_effect_told(env, site, EdgeKind::ReadsEnv, "env:"@ + s@, path, span, one);
    lemma_effect_told(env, site, EdgeKind::ReadsEnv, "env:"@ + s@, path, span, two);
    assert(proc.seen.contains("proc:"@ + s@));
    assert(env.seen.contains("env:"@ + s@));
}

// --- attributes --------------------------------------------------------------

/// How a lint is switched off, where an attribute does that.
pub open spec fn silencing(attr: Attr) -> Option<Text> {
    if attr.name.deep_view() == Some("allow"@) {
        Some("allow"@)
    } else if attr.name.deep_view() == Some("expect"@) {
        Some("expect"@)
    } else {
        None
    }
}

/// Naming one lint is a decision; switching off all of them hides every rule,
/// future ones too.
pub open spec fn breadth(lint: Text) -> Text {
    if lint == "all"@ || lint == "clippy::all"@ || lint == "warnings"@ {
        "broad"@
    } else {
        "named"@
    }
}

/// Whether an attribute says why: `reason` is no lint.
pub open spec fn documented(metas: Seq<Seq<Text>>) -> bool {
    exists|i: int| 0 <= i < metas.len() && syntax::dotted(#[trigger] metas[i]) == "reason"@
}

pub open spec fn silence_edge(
    site: SiteV,
    owner: Text,
    attr: Attr,
    form: Text,
    lint: Text,
    scope: Text,
) -> EdgeV {
    let edge = EdgeV::new(EdgeKind::Silences, owner, "cap:"@ + "lint"@).attr(
        "lint"@,
        JsonV::Str(lint),
    ).attr("scope"@, JsonV::Str(scope)).attr("breadth"@, JsonV::Str(breadth(lint))).attr(
        "form"@,
        JsonV::Str(form),
    ).evidence(site.evidence(attr.span));
    if documented(attr.metas.deep_view()) {
        edge.attr("documented"@, JsonV::Bool(true))
    } else {
        edge
    }
}

/// The first `n` lints that an attribute switches off.
pub open spec fn lints_silenced(
    log: LogV,
    site: SiteV,
    owner: Text,
    attr: Attr,
    form: Text,
    scope: Text,
    n: nat,
) -> LogV
    decreases n,
{
    if n == 0 {
        log
    } else {
        let before = lints_silenced(log, site, owner, attr, form, scope, (n - 1) as nat);
        let lint = syntax::dotted(attr.metas.deep_view()[n - 1]);
        if lint == "reason"@ {
            before
        } else {
            before.edge(silence_edge(site, owner, attr, form, lint, scope))
        }
    }
}

/// The lints that the first `n` attributes switch off. An item's own is a
/// local decision; a crate-wide one hides code nobody has written yet.
pub open spec fn silenced(
    log: LogV,
    site: SiteV,
    owner: Text,
    attrs: Seq<Attr>,
    scope: Text,
    n: nat,
) -> LogV
    decreases n,
{
    if n == 0 {
        log
    } else {
        let before = silenced(log, site, owner, attrs, scope, (n - 1) as nat);
        let attr = attrs[n - 1];
        match silencing(attr) {
            Some(form) => lints_silenced(
                capable(before, "cap:"@ + "lint"@),
                site,
                owner,
                attr,
                form,
                scope,
                attr.metas@.len(),
            ),
            None => before,
        }
    }
}

fn is_documented(metas: &Vec<Vec<String>>) -> (r: bool)
    ensures
        r == documented(metas.deep_view()),
{
    let mut i: usize = 0;
    while i < metas.len()
        invariant
            i <= metas.len(),
            forall|k: int|
                0 <= k < i ==> syntax::dotted(#[trigger] metas.deep_view()[k]) != "reason"@,
        decreases metas.len() - i,
    {
        assert(metas.deep_view()[i as int] == metas@[i as int].deep_view());
        if text::same(text::join(&metas[i], "::").as_str(), "reason") {
            return true;
        }
        i += 1;
    }
    false
}

fn silence_form(attr: &Attr) -> (form: Option<&'static str>)
    ensures
        match form {
            Some(f) => silencing(*attr) == Some(f@),
            None => silencing(*attr) is None,
        },
{
    match &attr.name {
        Some(name) => if text::same(name.as_str(), "allow") {
            Some("allow")
        } else if text::same(name.as_str(), "expect") {
            Some("expect")
        } else {
            None
        },
        None => None,
    }
}

fn silence_lints(
    out: &mut Writer,
    site: &Site,
    owner: &Id,
    attr: &Attr,
    form: &str,
    scope: &str,
)
    ensures
        final(out)@ == lints_silenced(
            old(out)@,
            site.deep_view(),
            owner.0@,
            *attr,
            form@,
            scope@,
            attr.metas@.len(),
        ),
{
    let ghost start = out@;
    let explained = is_documented(&attr.metas);
    let mut i: usize = 0;
    while i < attr.metas.len()
        invariant
            i <= attr.metas.len(),
            explained == documented(attr.metas.deep_view()),
            out@ == lints_silenced(
                start,
                site.deep_view(),
                owner.0@,
                *attr,
                form@,
                scope@,
                i as nat,
            ),
        decreases attr.metas.len() - i,
    {
        assert(attr.metas.deep_view()[i as int] == attr.metas@[i as int].deep_view());
        let lint = text::join(&attr.metas[i], "::");
        if !text::same(lint.as_str(), "reason") {
            let wide = text::same(lint.as_str(), "all") || text::same(
                lint.as_str(),
                "clippy::all",
            ) || text::same(lint.as_str(), "warnings");
            let edge = Edge::new(EdgeKind::Silences, owner.copy(), Id::capability("lint")).attr(
                "lint",
                Json::Str(lint),
            ).attr("scope", Json::str(scope)).attr(
                "breadth",
                Json::str(
                    if wide {
                        "broad"
                    } else {
                        "named"
                    },
                ),
            ).attr("form", Json::str(form)).evidence(site.evidence(attr.span));
            let edge = if explained {
                edge.attr("documented", Json::Bool(true))
            } else {
                edge
            };
            out.edge(edge);
        }
        i += 1;
    }
}

fn record_silencing(out: &mut Writer, site: &Site, owner: &Id, attrs: &Vec<Attr>, scope: &str)
    ensures
        final(out)@ == silenced(
            old(out)@,
            site.deep_view(),
            owner.0@,
            attrs@,
            scope@,
            attrs@.len(),
        ),
{
    let ghost start = out@;
    let mut i: usize = 0;
    while i < attrs.len()
        invariant
            i <= attrs.len(),
            out@ == silenced(start, site.deep_view(), owner.0@, attrs@, scope@, i as nat),
        decreases attrs.len() - i,
    {
        if let Some(form) = silence_form(&attrs[i]) {
            declare_capability(out, &Id::capability("lint"));
            silence_lints(out, site, owner, &attrs[i], form, scope);
        }
        i += 1;
    }
}

// --- imports -----------------------------------------------------------------

/// Where an import leads: a package of the workspace, or something outside it.
/// What is inside the package itself is not followed.
pub open spec fn import_target(site: SiteV, root: Text) -> Option<Text> {
    if root == "crate"@ || root == "self"@ || root == "super"@ {
        None
    } else {
        match table::lookup(site.known, root) {
            Some(id) => Some(id),
            None => Some("ext:"@ + root),
        }
    }
}

pub open spec fn import(log: LogV, site: SiteV, leaf: Seq<Text>, span: Extent) -> LogV {
    if leaf.len() == 0 {
        log
    } else {
        match import_target(site, leaf[0]) {
            None => log,
            Some(to) => {
                let log = if text::has_prefix(to, "ext:"@) {
                    log.node(named(NodeKind::External, to, leaf[0]))
                } else {
                    log
                };
                log.edge(
                    EdgeV::new(EdgeKind::Imports, site.file_id, to).attr(
                        "path"@,
                        JsonV::Str(syntax::dotted(leaf)),
                    ).evidence(site.evidence(span)),
                )
            },
        }
    }
}

pub open spec fn imports(log: LogV, site: SiteV, leaves: Seq<Seq<Text>>, span: Extent, n: nat) -> LogV
    decreases n,
{
    if n == 0 {
        log
    } else {
        import(imports(log, site, leaves, span, (n - 1) as nat), site, leaves[n - 1], span)
    }
}

fn emit_import(out: &mut Writer, site: &Site, leaf: &Vec<String>, span: Extent)
    ensures
        final(out)@ == import(old(out)@, site.deep_view(), leaf.deep_view(), span),
{
    if leaf.len() == 0 {
        return;
    }
    let root = leaf[0].as_str();
    assert(leaf.deep_view()[0] == root@);
    if text::same(root, "crate") || text::same(root, "self") || text::same(root, "super") {
        return;
    }
    let to = match site.known.get(root) {
        Some(id) => id.copy(),
        None => Id::external(root),
    };
    if text::starts_with(to.0.as_str(), "ext:") {
        out.node(named_node(NodeKind::External, to.copy(), root));
    }
    out.edge(
        Edge::new(EdgeKind::Imports, site.file_id.copy(), to).attr(
            "path",
            Json::Str(text::join(leaf, "::")),
        ).evidence(site.evidence(span)),
    );
}

fn emit_imports(out: &mut Writer, site: &Site, tree: &Import, span: Extent)
    ensures
        final(out)@ == ({
            let leaves = syntax::leaves(*tree, seq![], seq![]);
            imports(old(out)@, site.deep_view(), leaves, span, leaves.len())
        }),
{
    let ghost start = out@;
    let mut leaves: Vec<Vec<String>> = Vec::new();
    let none: Vec<String> = Vec::new();
    assert(leaves.deep_view() =~= seq![]);
    assert(none.deep_view() =~= seq![]);
    syntax::use_leaves(tree, &none, &mut leaves);
    let mut i: usize = 0;
    while i < leaves.len()
        invariant
            i <= leaves.len(),
            out@ == imports(start, site.deep_view(), leaves.deep_view(), span, i as nat),
        decreases leaves.len() - i,
    {
        assert(leaves.deep_view()[i as int] == leaves@[i as int].deep_view());
        emit_import(out, site, &leaves[i], span);
        i += 1;
    }
}

// --- the rest ----------------------------------------------------------------

/// Macros whose arguments are not what the function does: code that is
/// generated, and tokens meant for a parser.
pub open spec fn opaque_macro(name: Text) -> bool {
    name == "quote"@ || name == "quote_spanned"@ || name == "matches"@ || name == "cfg_if"@ || name
        == "include_str"@ || name == "include_bytes"@
}

fn is_opaque(name: &str) -> (r: bool)
    ensures
        r == opaque_macro(name@),
{
    text::same(name, "quote") || text::same(name, "quote_spanned") || text::same(name, "matches")
        || text::same(name, "cfg_if") || text::same(name, "include_str") || text::same(
        name,
        "include_bytes",
    )
}

/// Macros whose first argument is a format string.
pub open spec fn formats(name: Text) -> bool {
    name == "format"@ || name == "write"@ || name == "writeln"@ || name == "print"@ || name
        == "println"@ || name == "eprint"@ || name == "eprintln"@
}

fn is_formatting(name: &str) -> (r: bool)
    ensures
        r == formats(name@),
{
    text::same(name, "format") || text::same(name, "write") || text::same(name, "writeln")
        || text::same(name, "print") || text::same(name, "println") || text::same(name, "eprint")
        || text::same(name, "eprintln")
}

/// Whether a macro was handed expressions that are looked at.
pub open spec fn looked_into(name: Text, given: Option<Vec<Expression>>) -> bool {
    given is Some && !opaque_macro(name)
}

/// Whether a macro assembles a structured format by interpolation.
pub open spec fn interpolates(name: Text, given: Option<Vec<Expression>>) -> bool {
    looked_into(name, given) && formats(name) && given->0@.len() > 1 && match given->0@[0] {
        Expression::Str(s) => syntax::structured(s@),
        _ => false,
    }
}

pub open spec fn interpolated(log: LogV, site: SiteV, name: Text, span: Extent) -> LogV {
    capable(log, "cap:"@ + "json"@).edge(
        EdgeV::new(EdgeKind::Interpolates, site.container(), "cap:"@ + "json"@).attr(
            "via"@,
            JsonV::Str(name),
        ).evidence(site.evidence(span)).in_test(site.in_test),
    )
}

fn emit_macro(out: &mut Writer, site: &Site, name: &str, given: &Option<Vec<Expression>>, span: Extent)
    ensures
        final(out)@ == (if interpolates(name@, *given) {
            interpolated(old(out)@, site.deep_view(), name@, span)
        } else {
            old(out)@
        }),
{
    if is_opaque(name) || !is_formatting(name) {
        return;
    }
    if let Some(args) = given {
        if args.len() > 1 {
            if let Expression::Str(s) = &args[0] {
                if syntax::looks_structured(s.as_str()) {
                    let to = Id::capability("json");
                    declare_capability(out, &to);
                    out.edge(
                        Edge::new(EdgeKind::Interpolates, site.container(), to).attr(
                            "via",
                            Json::str(name),
                        ).evidence(site.evidence(span)).in_test(site.in_test),
                    );
                }
            }
        }
    }
}

/// The first arm that catches everything, among those from the `i`th on.
pub open spec fn catch_all(arms: Seq<Branch>, i: nat) -> Option<Branch>
    decreases arms.len() - i,
{
    if i >= arms.len() {
        None
    } else if arms[i as int].wild {
        Some(arms[i as int])
    } else {
        catch_all(arms, i + 1)
    }
}

/// A dispatch and its fallback, and whether the fallback does nothing.
pub open spec fn dispatched(log: LogV, site: SiteV, arms: Seq<Branch>, span: Extent) -> LogV {
    match catch_all(arms, 0) {
        None => log,
        Some(arm) => capable(log, "cap:"@ + "dispatch"@).edge(
            EdgeV::new(EdgeKind::DefaultArm, site.container(), "cap:"@ + "dispatch"@).attr(
                "arms"@,
                JsonV::Whole(arms.len() as u64),
            ).attr("empty"@, JsonV::Bool(syntax::idle(arm.body))).evidence(
                site.evidence(span),
            ).in_test(site.in_test),
        ),
    }
}

fn emit_match(out: &mut Writer, site: &Site, arms: &Vec<Branch>, span: Extent)
    ensures
        final(out)@ == dispatched(old(out)@, site.deep_view(), arms@, span),
{
    let mut i: usize = 0;
    while i < arms.len()
        invariant
            i <= arms.len(),
            out@ == old(out)@,
            catch_all(arms@, 0) == catch_all(arms@, i as nat),
        decreases arms.len() - i,
    {
        if arms[i].wild {
            let to = Id::capability("dispatch");
            declare_capability(out, &to);
            out.edge(
                Edge::new(EdgeKind::DefaultArm, site.container(), to).attr(
                    "arms",
                    Json::Whole(arms.len() as u64),
                ).attr("empty", Json::Bool(syntax::does_nothing(&arms[i].body))).evidence(
                    site.evidence(span),
                ).in_test(site.in_test),
            );
            return;
        }
        i += 1;
    }
}

/// `let _ = check(..)`: called, and its answer thrown away.
pub open spec fn discarded(
    log: LogV,
    site: SiteV,
    pattern: Pattern,
    init: Option<Expression>,
    span: Extent,
) -> LogV {
    match (pattern, init) {
        (Pattern::Wild, Some(e)) => match syntax::called(e) {
            Some(name) => log.node(named(NodeKind::External, "ext:"@ + name, name)).edge(
                EdgeV::new(EdgeKind::Discards, site.container(), "ext:"@ + name).evidence(
                    site.evidence(span),
                ).in_test(site.in_test),
            ),
            None => log,
        },
        _ => log,
    }
}

fn emit_discard(
    out: &mut Writer,
    site: &Site,
    pattern: &Pattern,
    init: &Option<Expression>,
    span: Extent,
)
    ensures
        final(out)@ == discarded(old(out)@, site.deep_view(), *pattern, *init, span),
{
    if let Pattern::Wild = pattern {
        if let Some(e) = init {
            if let Some(name) = syntax::called_name(e) {
                let to = Id::external(name.as_str());
                out.node(named_node(NodeKind::External, to.copy(), name.as_str()));
                out.edge(
                    Edge::new(EdgeKind::Discards, site.container(), to).evidence(
                        site.evidence(span),
                    ).in_test(site.in_test),
                );
            }
        }
    }
}

/// What names are bound to after a `let`.
pub open spec fn binding(
    bindings: Seq<(Text, BindingV)>,
    pattern: Pattern,
    init: Option<Expression>,
) -> Seq<(Text, BindingV)> {
    match (pattern, init) {
        (Pattern::Ident(name), Some(e)) => match syntax::bound(e) {
            Some(b) => table::put(bindings, name@, b),
            None => bindings,
        },
        _ => bindings,
    }
}

fn bind(bindings: &mut Table<Binding>, pattern: &Pattern, init: &Option<Expression>)
    ensures
        final(bindings).deep_view() == binding(old(bindings).deep_view(), *pattern, *init),
{
    if let Pattern::Ident(name) = pattern {
        if let Some(e) = init {
            if let Some(b) = syntax::binding_of(e) {
                let _ = bindings.insert(name.clone(), b);
            }
        }
    }
}

/// What an `impl` is for: the type, as it is written.
pub open spec fn impl_type(ty: TypeRef) -> Text {
    syntax::text_of(ty)
}

/// Methods of one name, of two types in one module, have ids of their own. Two
/// types are two where they are written differently.
pub proof fn lemma_methods_apart(site: SiteV, one: Place, other: Place, name: Text)
    requires
        one is Impl,
        other is Impl,
        syntax::text_of(one->Impl_ty) != syntax::text_of(other->Impl_ty),
    ensures
        inside(site, one).symbol_id(name) != inside(site, other).symbol_id(name),
{
    let package = seq![text::shorn_start(site.package, "pkg:"@)];
    let module = site.path_of_module();
    let inner = if module.len() == 0 {
        package
    } else {
        package.push(module)
    };
    let outer = inner + site.paths;
    let (x, y) = (impl_type(one->Impl_ty), impl_type(other->Impl_ty));
    lemma_qualified(outer, x, name);
    lemma_qualified(outer, y, name);
    assert(inner + site.paths.push(x) =~= outer.push(x));
    assert(inner + site.paths.push(y) =~= outer.push(y));
    let head = "sym:"@ + syntax::dotted(outer) + "::"@;
    let tail = "::"@ + name;
    let a = "sym:"@ + syntax::dotted(outer.push(x).push(name));
    let b = "sym:"@ + syntax::dotted(outer.push(y).push(name));
    assert(a =~= head + x + tail);
    assert(b =~= head + y + tail);
    if a == b {
        assert(a.len() == head.len() + x.len() + tail.len());
        assert(b.len() == head.len() + y.len() + tail.len());
        assert(a.subrange(head.len() as int, (head.len() + x.len()) as int) =~= x);
        assert(b.subrange(head.len() as int, (head.len() + y.len()) as int) =~= y);
    }
}

proof fn lemma_qualified(outer: Seq<Text>, ty: Text, name: Text)
    requires
        outer.len() > 0,
    ensures
        syntax::dotted(outer.push(ty).push(name)) == syntax::dotted(outer) + "::"@ + ty + "::"@
            + name,
{
    assert(outer.push(ty).push(name).drop_last() =~= outer.push(ty));
    assert(outer.push(ty).drop_last() =~= outer);
    assert(syntax::dotted(outer.push(ty)) == syntax::dotted(outer) + "::"@ + ty);
}

/// What an `impl` is called.
pub open spec fn impl_name(ty: TypeRef, of_trait: Option<Vec<String>>) -> Text {
    match of_trait {
        Some(idents) => "<"@ + impl_type(ty) + " as "@ + (match syntax::last_of(
            idents.deep_view(),
        ) {
            Some(name) => name,
            None => "?"@,
        }) + ">"@,
        None => "impl "@ + impl_type(ty),
    }
}

fn name_impl(ty: &TypeRef, of_trait: &Option<Vec<String>>) -> (name: String)
    ensures
        name@ == impl_name(*ty, *of_trait),
{
    let inner = syntax::type_text(ty);
    match of_trait {
        Some(idents) => {
            let of = match syntax::last_ident(idents) {
                Some(name) => name,
                None => "?".to_owned(),
            };
            text::cat5("<", inner.as_str(), " as ", of.as_str(), ">")
        },
        None => text::cat("impl ", inner.as_str()),
    }
}

// --- what each place tells ---------------------------------------------------

/// A call has the effect that its path says, by the first of these that fits:
/// starting a process, the environment, ending the process, the filesystem, the
/// network. Where none fits it has none.
pub proof fn lemma_call_effect(
    log: LogV,
    site: SiteV,
    bindings: Seq<(Text, BindingV)>,
    func: Expression,
    args: Seq<Expression>,
    span: Extent,
    raw: Text,
)
    requires
        site.symbols.len() > 0,
        syntax::path_of(func) == Some(raw),
    ensures
        ({
            let after = call(log, site, bindings, func, args, span);
            let path = canonical(site.aliases, raw);
            let owner = site.symbols.last();
            let starts = text::has_suffix(path, "Command::new"@);
            let env = text::has_suffix(path, "env::var"@) || text::has_suffix(path, "env::var_os"@)
                || text::has_suffix(path, "env::set_var"@) || text::has_suffix(
                path,
                "env::remove_var"@,
            );
            let ends = text::has_suffix(path, "process::exit"@) || text::has_suffix(
                path,
                "process::abort"@,
            );
            let fs = text::has_part(path, "fs::"@);
            &&& !starts && !env && ends ==> ends_with_edge(
                after,
                site,
                EdgeKind::EffectExec,
                owner,
                "cap:"@ + "exec"@,
                span,
            ) && last_attr(after, "op"@) == Some(JsonV::Str(path))
            &&& !starts && !env && !ends && fs ==> ends_with_edge(
                after,
                site,
                EdgeKind::EffectFs,
                owner,
                "cap:"@ + "fs"@,
                span,
            ) && last_attr(after, "op"@) == Some(JsonV::Str(path))
            &&& !starts && !env && !ends && !fs && syntax::on_network(path) ==> ends_with_edge(
                after,
                site,
                EdgeKind::EffectNet,
                owner,
                "cap:"@ + "net"@,
                span,
            ) && last_attr(after, "op"@) == Some(JsonV::Str(path))
            &&& !starts && !env && !ends && !fs && !syntax::on_network(path) ==> after == calls(
                log,
                site,
                syntax::bare(path),
                path,
                "path"@,
                span,
            )
            &&& starts ==> last_attr(after, "op"@) == Some(JsonV::Str(path))
                && after.facts.last()->Edge_0.kind == EdgeKind::Spawns
            &&& !starts && env ==> last_attr(after, "op"@) == Some(JsonV::Str(path))
                && after.facts.last()->Edge_0.kind == EdgeKind::ReadsEnv
        }),
{
    let path = canonical(site.aliases, raw);
    let told = calls(log, site, syntax::bare(path), path, "path"@, span);
    let literal = ProvenanceV::new("literal"@);
    let (name, from) = aimed(site.facts, bindings, args);
    let proc = told.node(named(NodeKind::Process, "proc:"@ + name, name));
    let env = told.node(named(NodeKind::EnvVar, "env:"@ + name, name));
    lemma_effect_told(proc, site, EdgeKind::Spawns, "proc:"@ + name, path, span, from);
    lemma_effect_told(env, site, EdgeKind::ReadsEnv, "env:"@ + name, path, span, from);
    lemma_effect_told(told, site, EdgeKind::EffectExec, "cap:"@ + "exec"@, path, span, literal);
    lemma_effect_told(told, site, EdgeKind::EffectFs, "cap:"@ + "fs"@, path, span, literal);
    lemma_effect_told(told, site, EdgeKind::EffectNet, "cap:"@ + "net"@, path, span, literal);
}

/// A renamed path is read as what it was renamed from, alone or with something
/// behind it; any other path is read as it stands.
pub proof fn lemma_alias_followed(aliases: Seq<(Text, Text)>, head: Text, rest: Text)
    requires
        !text::has_part(head, ":"@),
    ensures
        table::lookup(aliases, head) matches Some(full) ==> canonical(aliases, head) == full
            && canonical(aliases, head + "::"@ + rest) == full + "::"@ + rest,
        table::lookup(aliases, head) is None ==> canonical(aliases, head) == head && canonical(
            aliases,
            head + "::"@ + rest,
        ) == head + "::"@ + rest,
{
    reveal_strlit("::");
    reveal_strlit(":");
    text::lemma_find_from(head, "::"@, 0);
    if let Some(i) = text::find_from(head, "::"@, 0) {
        assert(head.subrange(i, i + 2)[0] == ':');
        assert(head.subrange(i, i + 1) =~= ":"@);
        assert(text::occurs_at(head, ":"@, i));
    }
    let path = head + "::"@ + rest;
    let at = head.len() as int;
    text::lemma_find_from(path, "::"@, 0);
    assert(path.subrange(at, at + 2) =~= "::"@);
    assert(text::occurs_at(path, "::"@, at));
    let found = text::find_from(path, "::"@, 0).unwrap();
    if found < at {
        assert(path.subrange(found, found + 2)[0] == ':');
        assert(head.subrange(found, found + 1) =~= ":"@);
        assert(text::occurs_at(head, ":"@, found));
    }
    assert(path.take(at) =~= head);
    assert(path.skip(at + 2) =~= rest);
}

/// Calling a name that the workspace declares is told as an edge to that name,
/// inferred from it, with the path where that says more; a name it does not
/// declare is not told.
#[verifier::rlimit(40)]
pub proof fn lemma_calls_told(
    log: LogV,
    site: SiteV,
    name: Text,
    path: Text,
    form: Text,
    span: Extent,
)
    requires
        site.symbols.len() > 0,
    ensures
        ({
            let after = calls(log, site, name, path, form, span);
            &&& table::lookup(site.facts.defined, name) is Some && name.len() > 0 ==> {
                &&& ends_with_edge(
                    after,
                    site,
                    EdgeKind::Calls,
                    site.symbols.last(),
                    "ext:"@ + name,
                    span,
                )
                &&& after.seen.contains("ext:"@ + name)
                &&& last_attr(after, "form"@) == Some(JsonV::Str(form))
                &&& last_attr(after, "via"@) == Some(JsonV::Str("name"@))
                &&& last_attr(after, "confidence"@) == Some(JsonV::Str("inferred"@))
                &&& path != name ==> last_attr(after, "path"@) == Some(JsonV::Str(path))
                &&& path == name ==> last_attr(after, "path"@) is None
                &&& site.in_test ==> last_attr(after, "role"@) == Some(JsonV::Str("test"@))
                &&& !site.in_test ==> last_attr(after, "role"@) is None
            }
            &&& table::lookup(site.facts.defined, name) is None || name.len() == 0 ==> after == log
        }),
{
    reveal_strlit("form");
    reveal_strlit("via");
    reveal_strlit("confidence");
    reveal_strlit("path");
    reveal_strlit("role");
    assert("form"@[0] == 'f' && "path"@[0] == 'p' && "role"@[0] == 'r');
    let to = "ext:"@ + name;
    let e0 = EdgeV::new(EdgeKind::Calls, site.container(), to);
    let e1 = e0.attr("form"@, JsonV::Str(form));
    let e2 = e1.attr("confidence"@, JsonV::Str("inferred"@));
    let e3 = e2.attr("via"@, JsonV::Str("name"@));
    let e4 = e3.evidence(site.evidence(span));
    let e5 = if path != name {
        e4.attr("path"@, JsonV::Str(path))
    } else {
        e4
    };
    lemma_edge_attr(e0, "form"@, JsonV::Str(form));
    lemma_edge_attr(e1, "confidence"@, JsonV::Str("inferred"@));
    lemma_edge_attr(e2, "via"@, JsonV::Str("name"@));
    lemma_edge_attr(e4, "path"@, JsonV::Str(path));
    lemma_edge_attr(e5, "role"@, JsonV::Str("test"@));
    assert("form"@.len() == 4 && "path"@.len() == 4 && "role"@.len() == 4 && "via"@.len() == 3);
    assert("confidence"@.len() == 10);
    let after = calls(log, site, name, path, form, span);
    if table::lookup(site.facts.defined, name) is Some && name.len() > 0 {
        assert(after == log.node(named(NodeKind::External, to, name)).edge(
            e5.in_test(site.in_test),
        ));
        assert(after.facts.last() == FactV::Edge(e5.in_test(site.in_test)));
    }
}

/// What a function declares to return is told as an edge from it to that type.
pub proof fn lemma_return_told(
    log: LogV,
    site: SiteV,
    owner: Text,
    signature: Prototype,
    ty: TypeRef,
    span: Extent,
)
    requires
        signature.output == Some((ty, span)),
    ensures
        ends_with_edge(
            signed(log, site, owner, signature),
            site,
            EdgeKind::Returns,
            owner,
            "type:"@ + syntax::text_of(ty),
            span,
        ),
{
}

/// A parameter is told as an edge from the function to its type, with its name,
/// and with its place among all that the function takes.
pub proof fn lemma_param_told(
    log: LogV,
    site: SiteV,
    owner: Text,
    inputs: Seq<Input>,
    n: nat,
    name: Option<String>,
    ty: TypeRef,
    span: Extent,
)
    requires
        0 < n <= inputs.len(),
        inputs[n - 1] == (Input::Typed { name, ty, span }),
    ensures
        ({
            let after = params(log, site, owner, inputs, n);
            &&& ends_with_edge(
                after,
                site,
                EdgeKind::Param,
                owner,
                "type:"@ + syntax::text_of(ty),
                span,
            )
            &&& name matches Some(x) ==> last_attr(after, "name"@) == Some(JsonV::Str(x@))
            &&& name is None ==> last_attr(after, "name"@) == Some(JsonV::Str("_"@))
            &&& last_attr(after, "position"@) == Some(JsonV::Whole((n - 1) as u64))
        }),
{
    reveal_strlit("name");
    reveal_strlit("position");
    assert("name"@.len() == 4 && "position"@.len() == 8);
    let e0 = EdgeV::new(EdgeKind::Param, owner, type_id(ty));
    let e1 = e0.attr("name"@, JsonV::Str(input_name(name)));
    lemma_edge_attr(e0, "name"@, JsonV::Str(input_name(name)));
    lemma_edge_attr(e1, "position"@, JsonV::Whole((n - 1) as u64));
}

/// A field is told as an edge from its type to its own, under its name, or its
/// place where it has none.
pub proof fn lemma_field_told(
    log: LogV,
    site: SiteV,
    name: Text,
    fields: Seq<Field>,
    n: nat,
)
    requires
        0 < n <= fields.len(),
    ensures
        ({
            let after = field_edges(log, site, name, fields, n);
            let field = fields[n - 1];
            &&& ends_with_edge(
                after,
                site,
                EdgeKind::HasField,
                "type:"@ + name,
                "type:"@ + syntax::text_of(field.ty),
                field.span,
            )
            &&& field.name matches Some(x) ==> last_attr(after, "name"@) == Some(JsonV::Str(x@))
            &&& field.name is None ==> last_attr(after, "name"@) == Some(
                JsonV::Str(text::decimal_of((n - 1) as nat)),
            )
        }),
{
    let field = fields[n - 1];
    lemma_edge_attr(
        EdgeV::new(EdgeKind::HasField, "type:"@ + name, type_id(field.ty)),
        "name"@,
        JsonV::Str(field_name(field, (n - 1) as nat)),
    );
}

proof fn lemma_node_attr(node: NodeV, key: Text, value: JsonV)
    ensures
        node.attr(key, value).kind == node.kind,
        node.attr(key, value).id == node.id,
        table::lookup(node.attr(key, value).attrs, key) == Some(value),
        forall|other: Text|
            other != key ==> #[trigger] table::lookup(node.attr(key, value).attrs, other)
                == table::lookup(node.attrs, other),
{
    json::lemma_with_field(node.attrs, key, value, key);
    assert forall|other: Text| other != key implies #[trigger] table::lookup(
        node.attr(key, value).attrs,
        other,
    ) == table::lookup(node.attrs, other) by {
        json::lemma_with_field(node.attrs, key, value, other);
    }
}

/// A symbol is a node with its name, its kind and how many lines it takes, marked
/// where it is test code and otherwise with the fingerprint of its body; and an
/// edge puts it in what it stands in.
#[verifier::rlimit(40)]
pub proof fn lemma_symbol_told(
    log: LogV,
    site: SiteV,
    name: Text,
    lang_kind: Text,
    span: Extent,
    tokens: Option<Text>,
)
    requires
        site.symbols.len() > 0,
    ensures
        ({
            let after = symbol(log, site, name, lang_kind, span, tokens);
            let print = match tokens {
                Some(tokens) => fingerprint(tokens),
                None => None,
            };
            let node = symbol_node(site, name, lang_kind, span, print);
            &&& ends_with_edge(
                after,
                site,
                EdgeKind::Contains,
                site.symbols.last(),
                site.symbol_id(name),
                span,
            )
            &&& after.seen.contains(site.symbol_id(name))
            &&& !log.seen.contains(site.symbol_id(name)) ==> after.facts.contains(FactV::Node(node))
            &&& node.kind == NodeKind::Symbol && node.id == site.symbol_id(name)
            &&& table::lookup(node.attrs, "name"@) == Some(JsonV::Str(name))
            &&& table::lookup(node.attrs, "lang:kind"@) == Some(JsonV::Str(lang_kind))
            &&& span.start_line <= span.end_line ==> table::lookup(node.attrs, "lines"@) == Some(
                JsonV::Whole((span.end_line - span.start_line + 1) as u64),
            )
            &&& site.in_test ==> table::lookup(node.attrs, "role"@) == Some(JsonV::Str("test"@))
                && table::lookup(node.attrs, "body"@) is None
            &&& !site.in_test ==> table::lookup(node.attrs, "role"@) is None && (match print {
                Some(hash) => table::lookup(node.attrs, "body"@) == Some(JsonV::Str(hash)),
                None => table::lookup(node.attrs, "body"@) is None,
            })
        }),
{
    reveal_strlit("name");
    reveal_strlit("lang:kind");
    reveal_strlit("lines");
    reveal_strlit("role");
    reveal_strlit("body");
    assert("name"@[0] == 'n' && "role"@[0] == 'r' && "body"@[0] == 'b');
    assert("name"@.len() == 4 && "lang:kind"@.len() == 9 && "lines"@.len() == 5);
    let print = match tokens {
        Some(tokens) => fingerprint(tokens),
        None => None,
    };
    let n0 = NodeV::new(site.symbol_id(name), NodeKind::Symbol);
    let n1 = n0.attr("name"@, JsonV::Str(name));
    let n2 = n1.attr("lang:kind"@, JsonV::Str(lang_kind));
    let n3 = n2.attr("lines"@, JsonV::Whole(lines_in(span)));
    lemma_node_attr(n0, "name"@, JsonV::Str(name));
    lemma_node_attr(n1, "lang:kind"@, JsonV::Str(lang_kind));
    lemma_node_attr(n2, "lines"@, JsonV::Whole(lines_in(span)));
    lemma_node_attr(n3, "role"@, JsonV::Str("test"@));
    if let Some(hash) = print {
        lemma_node_attr(n3, "body"@, JsonV::Str(hash));
    }
    let node = symbol_node(site, name, lang_kind, span, print);
    let after = symbol(log, site, name, lang_kind, span, tokens);
    if !log.seen.contains(site.symbol_id(name)) {
        assert(after.facts[after.facts.len() - 2] == FactV::Node(node));
    }
}

/// Unsafety is told against what has it, with its form.
pub proof fn lemma_unsafe_told(log: LogV, site: SiteV, owner: Text, form: Text, span: Extent)
    ensures
        ({
            let after = unsafe_at(log, site, owner, form, span);
            &&& ends_with_edge(
                after,
                site,
                EdgeKind::UnsafeAt,
                owner,
                "cap:"@ + "unsafe"@,
                span,
            )
            &&& last_attr(after, "form"@) == Some(JsonV::Str(form))
        }),
{
    lemma_edge_attr(
        EdgeV::new(EdgeKind::UnsafeAt, owner, "cap:"@ + "unsafe"@),
        "form"@,
        JsonV::Str(form),
    );
}

/// An answer that is thrown away is told as an edge to what was called; one that
/// is kept, or that nothing was called for, is not.
pub proof fn lemma_discard_told(
    log: LogV,
    site: SiteV,
    pattern: Pattern,
    e: Expression,
    span: Extent,
    name: Text,
)
    requires
        site.symbols.len() > 0,
    ensures
        ({
            let after = discarded(log, site, pattern, Some(e), span);
            &&& pattern is Wild && syntax::called(e) == Some(name) ==> ends_with_edge(
                after,
                site,
                EdgeKind::Discards,
                site.symbols.last(),
                "ext:"@ + name,
                span,
            ) && after.seen.contains("ext:"@ + name)
            &&& !(pattern is Wild) ==> after == log
            &&& syntax::called(e) is None ==> after == log
        }),
{
    let edge = EdgeV::new(EdgeKind::Discards, site.container(), "ext:"@ + name).evidence(
        site.evidence(span),
    );
    lemma_edge_attr(edge, "role"@, JsonV::Str("test"@));
}

/// A dispatch with an arm for anything else is told with how many arms it has and
/// whether the first such arm does nothing; one without is not told.
#[verifier::rlimit(40)]
pub proof fn lemma_dispatch_told(
    log: LogV,
    site: SiteV,
    arms: Seq<Branch>,
    span: Extent,
    first: int,
)
    requires
        site.symbols.len() > 0,
        0 <= first <= arms.len(),
        forall|i: int| 0 <= i < first ==> !(#[trigger] arms[i]).wild,
    ensures
        ({
            let after = dispatched(log, site, arms, span);
            &&& first == arms.len() ==> after == log
            &&& first < arms.len() && arms[first].wild ==> {
                &&& ends_with_edge(
                    after,
                    site,
                    EdgeKind::DefaultArm,
                    site.symbols.last(),
                    "cap:"@ + "dispatch"@,
                    span,
                )
                &&& last_attr(after, "arms"@) == Some(JsonV::Whole(arms.len() as u64))
                &&& last_attr(after, "empty"@) == Some(JsonV::Bool(syntax::idle(arms[first].body)))
            }
        }),
{
    lemma_catch_all(arms, 0, first);
    reveal_strlit("arms");
    reveal_strlit("empty");
    reveal_strlit("role");
    assert("arms"@[0] == 'a' && "role"@[0] == 'r');
    if first < arms.len() && arms[first].wild {
        let e0 = EdgeV::new(EdgeKind::DefaultArm, site.container(), "cap:"@ + "dispatch"@);
        let e1 = e0.attr("arms"@, JsonV::Whole(arms.len() as u64));
        let idle = JsonV::Bool(syntax::idle(arms[first].body));
        let e2 = e1.attr("empty"@, idle).evidence(site.evidence(span));
        lemma_edge_attr(e0, "arms"@, JsonV::Whole(arms.len() as u64));
        lemma_edge_attr(e1, "empty"@, idle);
        lemma_edge_attr(e2, "role"@, JsonV::Str("test"@));
    }
}

proof fn lemma_catch_all(arms: Seq<Branch>, i: nat, first: int)
    requires
        i <= first <= arms.len(),
        forall|k: int| i <= k < first ==> !(#[trigger] arms[k]).wild,
    ensures
        first == arms.len() ==> catch_all(arms, i) is None,
        first < arms.len() && arms[first].wild ==> catch_all(arms, i) == Some(arms[first]),
    decreases first - i,
{
    if i < first {
        assert(!arms[i as int].wild);
        lemma_catch_all(arms, i + 1, first);
    }
}

/// An import is told as an edge from its file: to the package of the workspace
/// that its first word names, or else to something outside by that name; what
/// begins inside the package itself is not told.
pub proof fn lemma_import_told(log: LogV, site: SiteV, leaf: Seq<Text>, span: Extent)
    requires
        leaf.len() > 0,
    ensures
        ({
            let after = import(log, site, leaf, span);
            let within = leaf[0] == "crate"@ || leaf[0] == "self"@ || leaf[0] == "super"@;
            &&& within ==> after == log
            &&& !within ==> (match table::lookup(site.known, leaf[0]) {
                Some(id) => ends_with_edge(after, site, EdgeKind::Imports, site.file_id, id, span),
                None => ends_with_edge(
                    after,
                    site,
                    EdgeKind::Imports,
                    site.file_id,
                    "ext:"@ + leaf[0],
                    span,
                ) && after.seen.contains("ext:"@ + leaf[0]),
            }) && last_attr(after, "path"@) == Some(JsonV::Str(text::joined(leaf, "::"@)))
        }),
{
    if let Some(to) = import_target(site, leaf[0]) {
        lemma_edge_attr(
            EdgeV::new(EdgeKind::Imports, site.file_id, to),
            "path"@,
            JsonV::Str(syntax::dotted(leaf)),
        );
        reveal_strlit("ext:");
        let ext = "ext:"@ + leaf[0];
        assert(ext.subrange(0, 4) =~= "ext:"@);
    }
}

/// A lint that is switched off is told with its name, how far it reaches, how much
/// it covers, how it was written, and whether anything says why.
#[verifier::rlimit(40)]
pub proof fn lemma_silence_told(
    site: SiteV,
    owner: Text,
    attr: Attr,
    form: Text,
    lint: Text,
    scope: Text,
)
    ensures
        ({
            let e = silence_edge(site, owner, attr, form, lint, scope);
            &&& e.kind == EdgeKind::Silences && e.from == owner && e.to == "cap:"@ + "lint"@
            &&& table::lookup(e.attrs, "lint"@) == Some(JsonV::Str(lint))
            &&& table::lookup(e.attrs, "scope"@) == Some(JsonV::Str(scope))
            &&& table::lookup(e.attrs, "form"@) == Some(JsonV::Str(form))
            &&& lint == "all"@ || lint == "clippy::all"@ || lint == "warnings"@ ==> table::lookup(
                e.attrs,
                "breadth"@,
            ) == Some(JsonV::Str("broad"@))
            &&& lint != "all"@ && lint != "clippy::all"@ && lint != "warnings"@ ==> table::lookup(
                e.attrs,
                "breadth"@,
            ) == Some(JsonV::Str("named"@))
            &&& table::lookup(e.attrs, "documented"@) is Some <==> exists|i: int|
                0 <= i < attr.metas@.len() && text::joined(
                    #[trigger] attr.metas.deep_view()[i],
                    "::"@,
                ) == "reason"@
        }),
{
    reveal_strlit("lint");
    reveal_strlit("scope");
    reveal_strlit("breadth");
    reveal_strlit("form");
    reveal_strlit("documented");
    assert("lint"@[0] == 'l' && "form"@[0] == 'f');
    assert("scope"@.len() == 5 && "breadth"@.len() == 7 && "documented"@.len() == 10);
    let e0 = EdgeV::new(EdgeKind::Silences, owner, "cap:"@ + "lint"@);
    let e1 = e0.attr("lint"@, JsonV::Str(lint));
    let e2 = e1.attr("scope"@, JsonV::Str(scope));
    let e3 = e2.attr("breadth"@, JsonV::Str(breadth(lint)));
    let e4 = e3.attr("form"@, JsonV::Str(form));
    let e5 = e4.evidence(site.evidence(attr.span));
    lemma_edge_attr(e0, "lint"@, JsonV::Str(lint));
    lemma_edge_attr(e1, "scope"@, JsonV::Str(scope));
    lemma_edge_attr(e2, "breadth"@, JsonV::Str(breadth(lint)));
    lemma_edge_attr(e3, "form"@, JsonV::Str(form));
    lemma_edge_attr(e5, "documented"@, JsonV::Bool(true));
    assert(attr.metas.deep_view().len() == attr.metas@.len());
}

/// Assembling a structured text by interpolation is told of a formatting macro
/// that is handed such a text and something to put in it, and of nothing else.
pub proof fn lemma_interpolation_told(
    log: LogV,
    site: SiteV,
    bindings: Seq<(Text, BindingV)>,
    name: String,
    given: Option<Vec<Expression>>,
    span: Extent,
)
    requires
        site.symbols.len() > 0,
    ensures
        ({
            let after = written(log, site, bindings, Place::Macro { name, given, span });
            let prints = name@ == "format"@ || name@ == "write"@ || name@ == "writeln"@ || name@
                == "print"@ || name@ == "println"@ || name@ == "eprint"@ || name@ == "eprintln"@;
            let fills = given matches Some(args) && args@.len() > 1 && args@[0] is Str
                && syntax::structured(args@[0]->Str_0@);
            &&& prints && fills ==> ends_with_edge(
                after,
                site,
                EdgeKind::Interpolates,
                site.symbols.last(),
                "cap:"@ + "json"@,
                span,
            ) && last_attr(after, "via"@) == Some(JsonV::Str(name@))
            &&& !prints || !fills ==> after == log
        }),
{
    reveal_strlit("format");
    reveal_strlit("write");
    reveal_strlit("writeln");
    reveal_strlit("print");
    reveal_strlit("println");
    reveal_strlit("eprint");
    reveal_strlit("eprintln");
    reveal_strlit("quote");
    reveal_strlit("quote_spanned");
    reveal_strlit("matches");
    reveal_strlit("cfg_if");
    reveal_strlit("include_str");
    reveal_strlit("include_bytes");
    reveal_strlit("via");
    reveal_strlit("role");
    assert("format"@[0] == 'f' && "cfg_if"@[0] == 'c' && "eprint"@[0] == 'e');
    assert("write"@[0] == 'w' && "print"@[0] == 'p' && "quote"@[0] == 'q');
    assert("writeln"@[0] == 'w' && "println"@[0] == 'p' && "matches"@[0] == 'm');
    assert("eprintln"@.len() == 8 && "quote_spanned"@.len() == 13 && "include_str"@.len() == 11);
    assert("include_bytes"@.len() == 13 && "format"@.len() == 6 && "write"@.len() == 5);
    assert("writeln"@.len() == 7 && "print"@.len() == 5 && "println"@.len() == 7);
    assert("eprint"@.len() == 6 && "quote"@.len() == 5 && "matches"@.len() == 7);
    assert("cfg_if"@.len() == 6 && "via"@.len() == 3 && "role"@.len() == 4);
    assert(formats(name@) ==> !opaque_macro(name@));
    let e0 = EdgeV::new(EdgeKind::Interpolates, site.container(), "cap:"@ + "json"@);
    let e1 = e0.attr("via"@, JsonV::Str(name@)).evidence(site.evidence(span));
    lemma_edge_attr(e0, "via"@, JsonV::Str(name@));
    lemma_edge_attr(e1, "role"@, JsonV::Str("test"@));
    if interpolates(name@, given) {
        let after = interpolated(log, site, name@, span);
        assert(after.facts.last() == FactV::Edge(e1.in_test(site.in_test)));
    }
}

// --- the walk ----------------------------------------------------------------

/// What has been written, and what names are bound to.
pub struct State {
    pub log: LogV,
    pub bindings: Seq<(Text, BindingV)>,
}

pub open spec fn function(log: LogV, site: SiteV, f: Function) -> LogV {
    let id = site.symbol_id(f.name@);
    let kind = if f.method {
        "method"@
    } else {
        "fn"@
    };
    let log = symbol(log, site, f.name@, kind, f.span, Some(f.tokens@));
    let log = silenced(log, site, id, f.attrs@, "item"@, f.attrs@.len());
    let log = signed(log, site, id, f.signature);
    if f.is_unsafe {
        unsafe_at(log, site, id, "unsafe fn"@, f.signature_span)
    } else {
        log
    }
}

/// What is written at a place, before what lies inside it.
pub open spec fn written(
    log: LogV,
    site: SiteV,
    bindings: Seq<(Text, BindingV)>,
    place: Place,
) -> LogV {
    match place {
        Place::Fn(f) => function(log, site, f),
        Place::Struct { name, fields, span } => shaped(
            symbol(log, site, name@, "struct"@, span, None),
            site,
            site.symbol_id(name@),
            name@,
            fields@,
            span,
        ),
        Place::Enum { name, variants, span } => variants_shaped(
            defined(
                symbol(log, site, name@, "enum"@, span, None),
                site.symbol_id(name@),
                name@,
                site.evidence(span),
            ),
            site,
            site.symbol_id(name@),
            name@,
            variants@,
            span,
            variants@.len(),
        ),
        Place::Trait { name, span } => symbol(log, site, name@, "trait"@, span, None),
        Place::Const { name, span, .. } => symbol(log, site, name@, "const"@, span, None),
        Place::Global { name, mutable, span, .. } => {
            let log = symbol(log, site, name@, "static"@, span, None);
            if mutable {
                unsafe_at(log, site, site.symbol_id(name@), "static mut"@, span)
            } else {
                log
            }
        },
        Place::Impl { ty, of_trait, is_unsafe, span } => {
            let name = impl_name(ty, of_trait);
            let log = symbol(log, site, name, "impl"@, span, None);
            if is_unsafe {
                unsafe_at(log, site, site.symbol_id(name), "unsafe impl"@, span)
            } else {
                log
            }
        },
        Place::Alias { .. } => log,
        Place::Mod { .. } => log,
        Place::Use { tree, span } => {
            let leaves = syntax::leaves(tree, seq![], seq![]);
            imports(log, site, leaves, span, leaves.len())
        },
        Place::Local { pattern, init, span } => discarded(log, site, pattern, init, span),
        Place::Match { arms, span } => dispatched(log, site, arms@, span),
        Place::Unsafe { span } => unsafe_at(log, site, site.container(), "unsafe block"@, span),
        Place::Call { func, args, span } => call(log, site, bindings, func, args@, span),
        Place::Method { name, args, span } => method(log, site, bindings, name@, args@, span),
        Place::Macro { name, given, span } => if interpolates(name@, given) {
            interpolated(log, site, name@, span)
        } else {
            log
        },
    }
}

/// Where what lies inside a place stands.
pub open spec fn inside(site: SiteV, place: Place) -> SiteV {
    match place {
        Place::Fn(f) => SiteV { symbols: site.symbols.push(site.symbol_id(f.name@)), ..site },
        Place::Trait { name, .. } => SiteV {
            symbols: site.symbols.push(site.symbol_id(name@)),
            paths: site.paths.push(name@),
            ..site
        },
        Place::Impl { ty, of_trait, .. } => SiteV {
            symbols: site.symbols.push(site.symbol_id(impl_name(ty, of_trait))),
            paths: site.paths.push(impl_type(ty)),
            ..site
        },
        Place::Mod { name, attrs } => SiteV {
            modules: site.modules.push(name@),
            in_test: site.in_test || syntax::any_marks_test(attrs@),
            ..site
        },
        _ => site,
    }
}

/// One place and everything inside it. A function has its own bindings, and
/// those around it are as they were once it ends.
pub open spec fn visited(state: State, site: SiteV, part: Part) -> State
    decreases part, 0nat,
{
    let log = written(state.log, site, state.bindings, part.place);
    let bindings = match part.place {
        Place::Local { pattern, init, .. } => binding(state.bindings, pattern, init),
        _ => state.bindings,
    };
    let here = State { log, bindings };
    let inner = inside(site, part.place);
    match part.place {
        Place::Fn(_) => State {
            log: visited_all(
                State { log, bindings: seq![] },
                inner,
                part.parts@,
                part.parts@.len(),
            ).log,
            bindings,
        },
        Place::Macro { name, given, .. } => {
            let handed = if looked_into(name@, given) {
                visited_all(here, site, part.handed@, part.handed@.len())
            } else {
                here
            };
            visited_all(handed, inner, part.parts@, part.parts@.len())
        },
        _ => visited_all(here, inner, part.parts@, part.parts@.len()),
    }
}

pub open spec fn visited_all(state: State, site: SiteV, parts: Seq<Part>, n: nat) -> State
    decreases parts, n,
{
    if n == 0 || n > parts.len() {
        state
    } else {
        visited(visited_all(state, site, parts, (n - 1) as nat), site, parts[n - 1])
    }
}

fn emit_function(out: &mut Writer, site: &Site, f: &Function)
    ensures
        final(out)@ == function(old(out)@, site.deep_view(), *f),
{
    let kind = if f.method {
        "method"
    } else {
        "fn"
    };
    let id = emit_symbol_with(out, site, f.name.as_str(), kind, f.span, Some(&f.tokens));
    record_silencing(out, site, &id, &f.attrs, "item");
    emit_signature(out, site, &id, &f.signature);
    if f.is_unsafe {
        emit_unsafe(out, site, id, "unsafe fn", f.signature_span);
    }
}

fn emit_enum(out: &mut Writer, site: &Site, name: &str, variants: &Vec<Variant>, span: Extent)
    ensures
        final(out)@ == variants_shaped(
            defined(
                symbol(old(out)@, site.deep_view(), name@, "enum"@, span, None),
                site.deep_view().symbol_id(name@),
                name@,
                site.deep_view().evidence(span),
            ),
            site.deep_view(),
            site.deep_view().symbol_id(name@),
            name@,
            variants@,
            span,
            variants@.len(),
        ),
{
    let id = emit_symbol_with(out, site, name, "enum", span, None);
    emit_defined(out, &id, name, site.evidence(span));
    let ghost start = out@;
    let mut i: usize = 0;
    while i < variants.len()
        invariant
            i <= variants.len(),
            id.0@ == site.deep_view().symbol_id(name@),
            out@ == variants_shaped(
                start,
                site.deep_view(),
                id.0@,
                name@,
                variants@,
                span,
                i as nat,
            ),
        decreases variants.len() - i,
    {
        let full = text::cat3(name, "::", variants[i].name.as_str());
        emit_fields(out, site, &id, full.as_str(), &variants[i].fields, span);
        i += 1;
    }
}

fn emit_place(out: &mut Writer, bindings: &Table<Binding>, site: &Site, place: &Place)
    ensures
        final(out)@ == written(old(out)@, site.deep_view(), bindings.deep_view(), *place),
{
    match place {
        Place::Fn(f) => emit_function(out, site, f),
        Place::Struct { name, fields, span } => {
            let id = emit_symbol_with(out, site, name.as_str(), "struct", *span, None);
            emit_fields(out, site, &id, name.as_str(), fields, *span);
        },
        Place::Enum { name, variants, span } => emit_enum(
            out,
            site,
            name.as_str(),
            variants,
            *span,
        ),
        Place::Trait { name, span } => {
            let _ = emit_symbol_with(out, site, name.as_str(), "trait", *span, None);
        },
        Place::Const { name, value: _, span } => {
            let _ = emit_symbol_with(out, site, name.as_str(), "const", *span, None);
        },
        Place::Global { name, mutable, value: _, span } => {
            let id = emit_symbol_with(out, site, name.as_str(), "static", *span, None);
            if *mutable {
                emit_unsafe(out, site, id, "static mut", *span);
            }
        },
        Place::Impl { ty, of_trait, is_unsafe, span } => {
            let name = name_impl(ty, of_trait);
            let id = emit_symbol_with(out, site, name.as_str(), "impl", *span, None);
            if *is_unsafe {
                emit_unsafe(out, site, id, "unsafe impl", *span);
            }
        },
        Place::Alias { .. } => {},
        Place::Mod { .. } => {},
        Place::Use { tree, span } => emit_imports(out, site, tree, *span),
        Place::Local { pattern, init, span } => emit_discard(out, site, pattern, init, *span),
        Place::Match { arms, span } => emit_match(out, site, arms, *span),
        Place::Unsafe { span } => emit_unsafe(
            out,
            site,
            site.container(),
            "unsafe block",
            *span,
        ),
        Place::Call { func, args, span } => emit_call(out, site, bindings, func, args, *span),
        Place::Method { name, args, span } => emit_method(
            out,
            site,
            bindings,
            name.as_str(),
            args,
            *span,
        ),
        Place::Macro { name, given, span } => emit_macro(out, site, name.as_str(), given, *span),
    }
}

fn enter<'a>(site: &Site<'a>, place: &Place) -> (inner: Site<'a>)
    ensures
        inner.deep_view() == inside(site.deep_view(), *place),
{
    let mut inner = site.copy();
    match place {
        Place::Fn(f) => text::push(&mut inner.symbols, site.symbol_id(f.name.as_str())),
        Place::Trait { name, span: _ } => {
            text::push(&mut inner.symbols, site.symbol_id(name.as_str()));
            text::push(&mut inner.paths, name.clone());
        },
        Place::Impl { ty, of_trait, is_unsafe: _, span: _ } => {
            let name = name_impl(ty, of_trait);
            text::push(&mut inner.symbols, site.symbol_id(name.as_str()));
            text::push(&mut inner.paths, syntax::type_text(ty));
        },
        Place::Mod { name, attrs } => {
            text::push(&mut inner.modules, name.clone());
            if syntax::has_cfg_test(attrs) {
                inner.in_test = true;
            }
        },
        _ => {},
    }
    inner
}

fn visit_part(out: &mut Writer, bindings: &mut Table<Binding>, site: &Site, part: &Part)
    ensures
        (State { log: final(out)@, bindings: final(bindings).deep_view() }) == visited(
            State { log: old(out)@, bindings: old(bindings).deep_view() },
            site.deep_view(),
            *part,
        ),
    decreases part, 0nat,
{
    emit_place(out, &*bindings, site, &part.place);
    if let Place::Local { pattern, init, span: _ } = &part.place {
        bind(bindings, pattern, init);
    }
    let inner = enter(site, &part.place);
    proof {
        assert(decreases_to!(*part => part.parts));
        assert(decreases_to!(part.parts => part.parts@));
        assert(decreases_to!(*part => part.handed));
        assert(decreases_to!(part.handed => part.handed@));
    }
    match &part.place {
        Place::Fn(_) => {
            let mut own: Table<Binding> = Table::new();
            visit_parts(out, &mut own, &inner, &part.parts);
        },
        Place::Macro { name, given, span: _ } => {
            if given.is_some() && !is_opaque(name.as_str()) {
                visit_parts(out, bindings, site, &part.handed);
            }
            visit_parts(out, bindings, &inner, &part.parts);
        },
        _ => visit_parts(out, bindings, &inner, &part.parts),
    }
}

fn visit_parts(out: &mut Writer, bindings: &mut Table<Binding>, site: &Site, parts: &Vec<Part>)
    ensures
        (State { log: final(out)@, bindings: final(bindings).deep_view() }) == visited_all(
            State { log: old(out)@, bindings: old(bindings).deep_view() },
            site.deep_view(),
            parts@,
            parts@.len(),
        ),
    decreases parts@, 1nat,
{
    let ghost start = State { log: out@, bindings: bindings.deep_view() };
    let mut i: usize = 0;
    while i < parts.len()
        invariant
            i <= parts.len(),
            (State { log: out@, bindings: bindings.deep_view() }) == visited_all(
                start,
                site.deep_view(),
                parts@,
                i as nat,
            ),
        decreases parts.len() - i,
    {
        assert(decreases_to!(parts@ => parts@[i as int]));
        visit_part(out, bindings, site, &parts[i]);
        i += 1;
    }
}

/// A whole file: what it switches off for all of itself, and its parts.
pub open spec fn file_visited(log: LogV, site: SiteV, tree: Tree) -> LogV {
    visited_all(
        State {
            log: silenced(log, site, site.file_id, tree.attrs@, "crate"@, tree.attrs@.len()),
            bindings: seq![],
        },
        site,
        tree.parts@,
        tree.parts@.len(),
    ).log
}

/// Where a file stands before anything in it is met.
pub open spec fn site_of(
    package: Text,
    file: ParsedV,
    known: Seq<(Text, Text)>,
    facts: FactsV,
) -> SiteV {
    SiteV {
        package,
        rel_path: file.rel_path,
        file_id: "file:"@ + file.rel_path,
        module_prefix: file.module_prefix,
        modules: seq![],
        symbols: seq![],
        paths: seq![],
        in_test: file.test_role,
        known,
        aliases: facts.aliases_for(file.rel_path),
        facts: facts.held,
    }
}

/// Reads files of one package into a stream.
pub struct FileVisitor<'a> {
    pub package: Id,
    /// Package name, as it is written in `use`, and its node.
    pub known_packages: &'a Table<Id>,
    pub facts: &'a PackageFacts,
}

impl<'a> FileVisitor<'a> {
    pub fn new(package: Id, known_packages: &'a Table<Id>, facts: &'a PackageFacts) -> (v: Self)
        ensures
            v.package.0@ == package.0@,
            v.known_packages.deep_view() == known_packages.deep_view(),
            v.facts.deep_view() == facts.deep_view(),
    {
        FileVisitor { package, known_packages, facts }
    }

    pub fn visit_file(&self, out: &mut Writer, file: &ParsedFile)
        ensures
            final(out)@ == file_visited(
                old(out)@,
                site_of(
                    self.package.0@,
                    file.deep_view(),
                    self.known_packages.deep_view(),
                    self.facts.deep_view(),
                ),
                file.parsed,
            ),
    {
        let aliases = self.facts.aliases_for(file.rel_path.as_str());
        let site = Site {
            package: self.package.copy(),
            rel_path: file.rel_path.clone(),
            file_id: Id::file(file.rel_path.as_str()),
            module_prefix: file.module_prefix.clone(),
            modules: Vec::new(),
            symbols: Vec::new(),
            paths: Vec::new(),
            in_test: file.test_role,
            known: self.known_packages,
            aliases: &aliases,
            facts: &self.facts.held,
        };
        assert(site.modules.deep_view() =~= seq![]);
        assert(site.symbols.deep_view() =~= seq![]);
        assert(site.paths.deep_view() =~= seq![]);
        record_silencing(out, &site, &site.file_id, &file.parsed.attrs, "crate");
        let mut bindings: Table<Binding> = Table::new();
        visit_parts(out, &mut bindings, &site, &file.parsed.parts);
    }
}

// --- how the walk goes --------------------------------------------------------

/// A `let` binds what stands after it in its function, a function begins with
/// nothing bound, and what was bound around it stands when it ends.
pub proof fn lemma_bindings_kept(
    state: State,
    site: SiteV,
    f: Function,
    pattern: Pattern,
    init: Option<Expression>,
    span: Extent,
    handed: Vec<Part>,
    none: Vec<Part>,
    parts: Vec<Part>,
)
    requires
        none@.len() == 0,
    ensures
        visited(
            state,
            site,
            Part { place: Place::Local { pattern, init, span }, handed, parts: none },
        ).bindings == binding(state.bindings, pattern, init),
        visited(state, site, Part { place: Place::Fn(f), handed, parts }).bindings
            == state.bindings,
        visited(state, site, Part { place: Place::Fn(f), handed, parts }).log == visited_all(
            State { log: function(state.log, site, f), bindings: seq![] },
            SiteV { symbols: site.symbols.push(site.symbol_id(f.name@)), ..site },
            parts@,
            parts@.len(),
        ).log,
{
    reveal_with_fuel(visited, 2);
    reveal_with_fuel(visited_all, 2);
}

/// What lies inside a function, a trait or an `impl` belongs to it; what lies in a
/// module marked for tests is test code, and in test code everything is.
pub proof fn lemma_inside(site: SiteV, f: Function, name: String, attrs: Vec<Attr>, span: Extent)
    ensures
        inside(site, Place::Fn(f)).symbols == site.symbols.push(site.symbol_id(f.name@)),
        inside(site, Place::Fn(f)).in_test == site.in_test,
        inside(site, Place::Trait { name, span }).symbols.last() == site.symbol_id(name@),
        inside(site, Place::Trait { name, span }).paths.last() == name@,
        inside(site, Place::Mod { name, attrs }).modules == site.modules.push(name@),
        inside(site, Place::Mod { name, attrs }).symbols == site.symbols,
        site.in_test ==> inside(site, Place::Mod { name, attrs }).in_test,
        (exists|i: int|
            0 <= i < attrs@.len() && (#[trigger] attrs@[i]).name.deep_view() == Some("cfg"@)
                && attrs@[i].metas.deep_view() == seq![seq!["test"@]]) ==> inside(
            site,
            Place::Mod { name, attrs },
        ).in_test,
        attrs@.len() == 0 ==> inside(site, Place::Mod { name, attrs }).in_test == site.in_test,
{
    if exists|i: int|
        0 <= i < attrs@.len() && (#[trigger] attrs@[i]).name.deep_view() == Some("cfg"@)
            && attrs@[i].metas.deep_view() == seq![seq!["test"@]] {
        let i = choose|i: int|
            0 <= i < attrs@.len() && (#[trigger] attrs@[i]).name.deep_view() == Some("cfg"@)
                && attrs@[i].metas.deep_view() == seq![seq!["test"@]];
        assert(attrs@[i].metas.deep_view()[0] == seq!["test"@]);
        assert(attrs@[i].metas@.len() == 1) by {
            assert(attrs@[i].metas.deep_view().len() == attrs@[i].metas@.len());
        }
        assert(syntax::marks_test(attrs@[i]));
    }
}

/// A symbol at the top of its package is addressed by the package and its name; in
/// a module, by the module between them.
pub proof fn lemma_symbol_addressed(site: SiteV, package: Text, name: Text, module: Text)
    requires
        site.package == "pkg:"@ + package,
        !text::has_prefix(package, "pkg:"@),
        site.paths.len() == 0,
    ensures
        site.module_prefix.len() == 0 && site.modules.len() == 0 ==> site.symbol_id(name) == "sym:"@
            + (package + "::"@ + name),
        site.module_prefix == module && module.len() > 0 && site.modules.len() == 0
            ==> site.symbol_id(name) == "sym:"@ + (package + "::"@ + module + "::"@ + name),
{
    reveal_strlit("pkg:");
    let id = site.package;
    assert(id.subrange(0, 4) =~= "pkg:"@);
    assert(id.skip(4) =~= package);
    reveal_with_fuel(text::shorn_start, 3);
    assert(text::shorn_start(id, "pkg:"@) == package);
    reveal_with_fuel(text::joined, 4);
    assert(site.paths =~= seq![]);
    if site.module_prefix.len() == 0 && site.modules.len() == 0 {
        assert(site.modules =~= seq![]);
        assert((seq![package] + site.paths).push(name) =~= seq![package, name]);
        assert(text::joined(seq![package, name], "::"@) =~= package + "::"@ + name);
    }
    if site.module_prefix == module && module.len() > 0 && site.modules.len() == 0 {
        assert(seq![module] + site.modules =~= seq![module]);
        assert(text::joined(seq![module], "::"@) =~= module);
        assert((seq![package].push(module) + site.paths).push(name) =~= seq![
            package,
            module,
            name,
        ]);
        assert(text::joined(seq![package, module, name], "::"@) =~= package + "::"@ + module
            + "::"@ + name);
    }
}

/// What is handed to a subprocess by a literal is told with that literal, and any
/// other with how it came to be; only `arg` and `args` hand anything.
#[verifier::rlimit(40)]
pub proof fn lemma_arg_told(
    log: LogV,
    site: SiteV,
    bindings: Seq<(Text, BindingV)>,
    name: Text,
    s: String,
    span: Extent,
)
    requires
        site.symbols.len() > 0,
    ensures
        ({
            let after = method(log, site, bindings, name, seq![Expression::Str(s)], span);
            let told = calls(log, site, name, name, "method"@, span);
            &&& name == "arg"@ || name == "args"@ ==> {
                &&& ends_with_edge(
                    after,
                    site,
                    EdgeKind::SpawnArg,
                    site.symbols.last(),
                    "cap:"@ + "exec"@,
                    span,
                )
                &&& last_attr(after, "value"@) == Some(JsonV::Str(s@))
                &&& last_attr(after, "via"@) == Some(JsonV::Str("literal"@))
            }
            &&& name != "arg"@ && name != "args"@ ==> after == told
        }),
{
    reveal_strlit("via");
    reveal_strlit("value");
    reveal_strlit("role");
    assert("via"@.len() == 3 && "value"@.len() == 5 && "role"@.len() == 4);
    let args = seq![Expression::Str(s)];
    let told = calls(log, site, name, name, "method"@, span);
    assert(spawn_args(told, site, bindings, args, span, 0) == told);
    assert(spawn_args(told, site, bindings, args, span, 1) == capable(
        told,
        "cap:"@ + "exec"@,
    ).edge(spawn_arg(site, s@, ProvenanceV::new("literal"@), span)));
    let e0 = EdgeV::new(EdgeKind::SpawnArg, site.container(), "cap:"@ + "exec"@);
    let e1 = e0.attr("via"@, JsonV::Str("literal"@)).evidence(site.evidence(span));
    let e2 = e1.attr("value"@, JsonV::Str(s@));
    lemma_edge_attr(e0, "via"@, JsonV::Str("literal"@));
    lemma_edge_attr(e1, "value"@, JsonV::Str(s@));
    lemma_edge_attr(e2, "role"@, JsonV::Str("test"@));
    assert(spawn_arg(site, s@, ProvenanceV::new("literal"@), span) == e2.in_test(site.in_test));
}

/// What a type is made of is told as an edge to each part, at its place; a type is
/// not told as part of itself.
pub proof fn lemma_type_part_told(
    log: LogV,
    owner: Text,
    inner: TypeRef,
    position: nat,
    ev: EvidenceV,
)
    requires
        position <= u64::MAX,
    ensures
        ({
            let after = argument(log, owner, inner, position, ev);
            let id = "type:"@ + syntax::text_of(inner);
            &&& owner == id ==> after == log
            &&& owner != id ==> (after.facts.last() matches FactV::Edge(e) && e.kind
                == EdgeKind::TypeArg && e.from == owner && e.to == id && table::lookup(
                e.attrs,
                "position"@,
            ) == Some(JsonV::Whole(position as u64)))
        }),
{
    lemma_edge_attr(
        EdgeV::new(EdgeKind::TypeArg, owner, type_id(inner)),
        "position"@,
        JsonV::Whole(position as u64),
    );
}

/// A type is told as it is written and by what it is called.
pub proof fn lemma_type_told(ty: TypeRef)
    ensures
        type_node(ty).id == "type:"@ + syntax::text_of(ty),
        type_node(ty).kind == NodeKind::Type,
        table::lookup(type_node(ty).attrs, "text"@) == Some(JsonV::Str(syntax::text_of(ty))),
        syntax::base_of(ty) matches Some(base) ==> table::lookup(type_node(ty).attrs, "base"@)
            == Some(JsonV::Str(base)),
        syntax::base_of(ty) is None ==> table::lookup(type_node(ty).attrs, "base"@) is None,
{
    reveal_strlit("text");
    reveal_strlit("base");
    assert("text"@[0] == 't' && "base"@[0] == 'b');
    let n0 = NodeV::new(type_id(ty), NodeKind::Type);
    let n1 = n0.attr("text"@, JsonV::Str(syntax::text_of(ty)));
    lemma_node_attr(n0, "text"@, JsonV::Str(syntax::text_of(ty)));
    if let Some(base) = syntax::base_of(ty) {
        lemma_node_attr(n1, "base"@, JsonV::Str(base));
    }
}

}
