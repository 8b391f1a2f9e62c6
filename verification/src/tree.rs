//! From a source text to the places it holds.
//!
//! `syn` parses a text and walks what it made of it. What is met on the walk is
//! taken over part by part, without a decision; every function that does so says
//! which of `syn`'s types it takes over.

use quote::ToTokens;
use syn::punctuated::Punctuated;
use syn::spanned::Spanned;
use syn::visit::Visit;
use vstd::prelude::*;

use crate::syntax::{
    Arg, Attr, Branch, Expression, Extent, Field, Form, Function, Import, Input, Part, Pattern,
    Place, Prototype, Step, Tree, TypeRef, Variant,
};
use crate::text::Text;

verus! {

// --- what `syn` holds --------------------------------------------------------

/// Where `proc_macro2` says that something stands.
#[verifier::external_type_specification]
#[verifier::external_body]
pub struct ExSpan(proc_macro2::Span);

/// `syn`'s path.
#[verifier::external_type_specification]
#[verifier::external_body]
pub struct ExPath(syn::Path);

/// `syn`'s expression.
#[verifier::external_type_specification]
#[verifier::external_body]
pub struct ExExpr(syn::Expr);

/// `syn`'s statement.
#[verifier::external_type_specification]
#[verifier::external_body]
pub struct ExStmt(syn::Stmt);

/// `syn`'s block.
#[verifier::external_type_specification]
#[verifier::external_body]
pub struct ExBlock(syn::Block);

/// `syn`'s generic argument.
#[verifier::external_type_specification]
#[verifier::external_body]
pub struct ExGenericArgument(syn::GenericArgument);

/// `syn`'s type.
#[verifier::external_type_specification]
#[verifier::external_body]
pub struct ExType(syn::Type);

/// `syn`'s tree of a `use`.
#[verifier::external_type_specification]
#[verifier::external_body]
pub struct ExUseTree(syn::UseTree);

/// `syn`'s attribute.
#[verifier::external_type_specification]
#[verifier::external_body]
pub struct ExAttribute(syn::Attribute);

/// `syn`'s argument of a function.
#[verifier::external_type_specification]
#[verifier::external_body]
pub struct ExFnArg(syn::FnArg);

/// `syn`'s signature.
#[verifier::external_type_specification]
#[verifier::external_body]
pub struct ExSignature(syn::Signature);

/// `syn`'s fields of a type or a variant.
#[verifier::external_type_specification]
#[verifier::external_body]
pub struct ExFields(syn::Fields);

/// `syn`'s item.
#[verifier::external_type_specification]
#[verifier::external_body]
pub struct ExItem(syn::Item);

/// `syn`'s item of an `impl`.
#[verifier::external_type_specification]
#[verifier::external_body]
pub struct ExImplItem(syn::ImplItem);

/// `syn`'s `let`.
#[verifier::external_type_specification]
#[verifier::external_body]
pub struct ExLocal(syn::Local);

/// `syn`'s macro.
#[verifier::external_type_specification]
#[verifier::external_body]
pub struct ExMacro(syn::Macro);

/// `syn`'s macro as an expression.
#[verifier::external_type_specification]
#[verifier::external_body]
pub struct ExExprMacro(syn::ExprMacro);

/// `syn`'s macro as a statement.
#[verifier::external_type_specification]
#[verifier::external_body]
pub struct ExStmtMacro(syn::StmtMacro);

/// `syn`'s arm of a match.
#[verifier::external_type_specification]
#[verifier::external_body]
pub struct ExArm(syn::Arm);

// --- small parts -------------------------------------------------------------

/// Takes over a `proc_macro2::Span` by its `start` and `end`.
#[verifier::external_body]
fn place_of(span: proc_macro2::Span) -> (place: Extent) {
    let (start, end) = (span.start(), span.end());
    Extent {
        start_line: start.line as u32,
        start_col: start.column as u32,
        end_line: end.line as u32,
        end_col: end.column as u32,
    }
}

/// Takes over a `syn::Path` by the words of its segments.
#[verifier::external_body]
fn idents(path: &syn::Path) -> (words: Vec<String>) {
    path.segments.iter().map(|s| s.ident.to_string()).collect()
}

/// Takes over a `syn::Expr`, variant by variant.
#[verifier::external_body]
fn expr(e: &syn::Expr) -> (taken: Expression) {
    match e {
        syn::Expr::Lit(syn::ExprLit { lit: syn::Lit::Str(s), .. }) => Expression::Str(s.value()),
        syn::Expr::Path(p) => Expression::Path(idents(&p.path)),
        syn::Expr::Tuple(t) => Expression::Tuple(t.elems.iter().map(expr).collect()),
        syn::Expr::Block(b) => Expression::Block(b.block.stmts.iter().map(stmt).collect()),
        syn::Expr::MethodCall(c) => {
            Expression::Method { name: c.method.to_string(), receiver: Box::new(expr(&c.receiver)) }
        },
        _ => around(e),
    }
}

/// Takes over a `syn::Expr` that stands around one other.
#[verifier::external_body]
fn around(e: &syn::Expr) -> (taken: Expression) {
    match e {
        syn::Expr::Call(c) => Expression::Call(Box::new(expr(&c.func))),
        syn::Expr::Reference(r) => Expression::Reference(Box::new(expr(&r.expr))),
        syn::Expr::Try(t) => Expression::Try(Box::new(expr(&t.expr))),
        syn::Expr::Await(a) => Expression::Await(Box::new(expr(&a.base))),
        syn::Expr::Match(m) => Expression::Match(Box::new(expr(&m.expr))),
        _ => Expression::Other,
    }
}

/// Takes over a `syn::Stmt`: an expression without a semicolon, or not.
#[verifier::external_body]
fn stmt(s: &syn::Stmt) -> (taken: Step) {
    match s {
        syn::Stmt::Expr(e, None) => Step::Tail(Box::new(expr(e))),
        _ => Step::Other,
    }
}

/// Takes over a `syn::GenericArgument`: a type, or not.
#[verifier::external_body]
fn generic(arg: &syn::GenericArgument) -> (taken: Arg) {
    match arg {
        syn::GenericArgument::Type(t) => Arg::Type(ty(t)),
        _ => Arg::Other,
    }
}

/// Takes over what the last segment of a `syn::Path` has in angle brackets.
#[verifier::external_body]
fn args(path: &syn::Path) -> (taken: Vec<Arg>) {
    match path.segments.last().map(|s| &s.arguments) {
        Some(syn::PathArguments::AngleBracketed(a)) => a.args.iter().map(generic).collect(),
        _ => Vec::new(),
    }
}

/// Takes over a `syn::Type`, variant by variant.
#[verifier::external_body]
fn form(t: &syn::Type) -> (taken: Form) {
    match t {
        syn::Type::Reference(r) => Form::Reference(Box::new(ty(&r.elem))),
        syn::Type::Paren(p) => Form::Paren(Box::new(ty(&p.elem))),
        syn::Type::Slice(s) => Form::Slice(Box::new(ty(&s.elem))),
        syn::Type::Array(a) => Form::Array(Box::new(ty(&a.elem))),
        syn::Type::Tuple(t) => Form::Tuple(t.elems.iter().map(ty).collect()),
        syn::Type::Path(p) => Form::Path { idents: idents(&p.path), args: args(&p.path) },
        _ => Form::Other,
    }
}

/// Takes over a `syn::Type` with its tokens.
#[verifier::external_body]
fn ty(t: &syn::Type) -> (taken: TypeRef) {
    TypeRef { tokens: t.to_token_stream().to_string(), form: form(t) }
}

/// Takes over a `syn::UseTree`, variant by variant.
#[verifier::external_body]
fn use_tree(t: &syn::UseTree) -> (taken: Import) {
    match t {
        syn::UseTree::Path(p) => Import::Path(p.ident.to_string(), Box::new(use_tree(&p.tree))),
        syn::UseTree::Name(n) => Import::Name(n.ident.to_string()),
        syn::UseTree::Rename(r) => {
            Import::Rename { name: r.ident.to_string(), rename: r.rename.to_string() }
        },
        syn::UseTree::Glob(_) => Import::Glob,
        syn::UseTree::Group(g) => Import::Group(g.items.iter().map(use_tree).collect()),
    }
}

/// Takes over a `syn::Attribute`: its name where that is one word, and the paths
/// that `parse_nested_meta` finds in it.
#[verifier::external_body]
fn attr(a: &syn::Attribute) -> (taken: Attr) {
    let mut metas = Vec::new();
    let _ = a.parse_nested_meta(|meta| Ok(metas.push(idents(&meta.path))));
    Attr {
        name: a.path().get_ident().map(|i| i.to_string()),
        metas,
        span: place_of(a.span()),
    }
}

/// Takes over a `syn::FnArg`, variant by variant.
#[verifier::external_body]
fn input(arg: &syn::FnArg) -> (taken: Input) {
    match arg {
        syn::FnArg::Receiver(_) => Input::Receiver,
        syn::FnArg::Typed(typed) => Input::Typed {
            name: match &*typed.pat {
                syn::Pat::Ident(ident) => Some(ident.ident.to_string()),
                _ => None,
            },
            ty: ty(&typed.ty),
            span: place_of(typed.span()),
        },
    }
}

/// Takes over a `syn::Signature` by its inputs and its output.
#[verifier::external_body]
fn signature(sig: &syn::Signature) -> (taken: Prototype) {
    Prototype {
        inputs: sig.inputs.iter().map(input).collect(),
        output: match &sig.output {
            syn::ReturnType::Type(_, t) => Some((ty(t), place_of(t.span()))),
            syn::ReturnType::Default => None,
        },
    }
}

/// Takes over `syn::Fields`, field by field.
#[verifier::external_body]
fn fields(list: &syn::Fields) -> (taken: Vec<Field>) {
    list.iter()
        .map(|f| Field {
            name: f.ident.as_ref().map(|i| i.to_string()),
            ty: ty(&f.ty),
            span: place_of(f.span()),
        })
        .collect()
}

// --- places ------------------------------------------------------------------

/// Takes over the parts of a function: its attributes, its `syn::Signature` and
/// its `syn::Block`, with its tokens.
#[verifier::external_body]
fn function(
    method: bool,
    span: proc_macro2::Span,
    attrs: &[syn::Attribute],
    sig: &syn::Signature,
    block: &syn::Block,
) -> (taken: Option<Place>) {
    Some(Place::Fn(Function {
        method,
        name: sig.ident.to_string(),
        attrs: attrs.iter().map(attr).collect(),
        signature: signature(sig),
        is_unsafe: sig.unsafety.is_some(),
        span: place_of(span),
        signature_span: place_of(sig.span()),
        body: block.stmts.iter().map(stmt).collect(),
        tokens: block.to_token_stream().to_string(),
    }))
}

/// Takes over a `syn::Item`, variant by variant.
#[verifier::external_body]
fn item(node: &syn::Item) -> (place: Option<Place>) {
    match node {
        syn::Item::Fn(i) => function(false, i.span(), &i.attrs, &i.sig, &i.block),
        syn::Item::Trait(i) => {
            Some(Place::Trait { name: i.ident.to_string(), span: place_of(i.span()) })
        },
        syn::Item::Mod(i) => {
            let attrs = i.attrs.iter().map(attr).collect();
            Some(Place::Mod { name: i.ident.to_string(), attrs })
        },
        syn::Item::Use(i) => {
            Some(Place::Use { tree: use_tree(&i.tree), span: place_of(i.span()) })
        },
        _ => type_item(node),
    }
}

/// Takes over a `syn::Item` that makes a type.
#[verifier::external_body]
fn type_item(node: &syn::Item) -> (place: Option<Place>) {
    let span = place_of(node.span());
    match node {
        syn::Item::Struct(i) => {
            Some(Place::Struct { name: i.ident.to_string(), fields: fields(&i.fields), span })
        },
        syn::Item::Enum(i) => {
            let held = i.variants.iter().map(|v| (v.ident.to_string(), fields(&v.fields)));
            let variants = held.map(|(name, fields)| Variant { name, fields }).collect();
            Some(Place::Enum { name: i.ident.to_string(), variants, span })
        },
        syn::Item::Type(i) => Some(Place::Alias { name: i.ident.to_string(), ty: ty(&i.ty) }),
        _ => value_item(node),
    }
}

/// Takes over a `syn::Item` that makes a value.
#[verifier::external_body]
fn value_item(node: &syn::Item) -> (place: Option<Place>) {
    let span = place_of(node.span());
    match node {
        syn::Item::Const(i) => {
            Some(Place::Const { name: i.ident.to_string(), value: expr(&i.expr), span })
        },
        syn::Item::Static(i) => {
            let mutable = matches!(i.mutability, syn::StaticMutability::Mut(_));
            Some(Place::Global { name: i.ident.to_string(), mutable, value: expr(&i.expr), span })
        },
        _ => block_item(node),
    }
}

/// Takes over a `syn::Item` that is an `impl`.
#[verifier::external_body]
fn block_item(node: &syn::Item) -> (place: Option<Place>) {
    match node {
        syn::Item::Impl(i) => Some(Place::Impl {
            ty: ty(&i.self_ty),
            of_trait: i.trait_.as_ref().map(|(_, path, _)| idents(path)),
            is_unsafe: i.unsafety.is_some(),
            span: place_of(i.span()),
        }),
        _ => None,
    }
}

/// Takes over a `syn::ImplItem`: a method, or nothing.
#[verifier::external_body]
fn impl_item(node: &syn::ImplItem) -> (place: Option<Place>) {
    match node {
        syn::ImplItem::Fn(i) => function(true, i.span(), &i.attrs, &i.sig, &i.block),
        _ => None,
    }
}

/// Takes over a `syn::Local`: its pattern, and what it is set to.
#[verifier::external_body]
fn local(node: &syn::Local) -> (place: Place) {
    Place::Local {
        pattern: match &node.pat {
            syn::Pat::Wild(_) => Pattern::Wild,
            syn::Pat::Ident(ident) => Pattern::Ident(ident.ident.to_string()),
            _ => Pattern::Other,
        },
        init: node.init.as_ref().map(|init| expr(&init.expr)),
        span: place_of(node.span()),
    }
}

/// Takes over a `syn::Expr` that is a place of its own, variant by variant.
#[verifier::external_body]
fn expression(node: &syn::Expr) -> (place: Option<Place>) {
    let span = place_of(node.span());
    match node {
        syn::Expr::Match(m) => Some(Place::Match { arms: m.arms.iter().map(arm).collect(), span }),
        syn::Expr::Unsafe(_) => Some(Place::Unsafe { span }),
        syn::Expr::Call(c) => {
            let args = c.args.iter().map(expr).collect();
            Some(Place::Call { func: expr(&c.func), args, span })
        },
        syn::Expr::MethodCall(c) => {
            let args = c.args.iter().map(expr).collect();
            Some(Place::Method { name: c.method.to_string(), args, span })
        },
        _ => None,
    }
}

/// Takes over a `syn::Arm`: whether it takes anything, and what it does.
#[verifier::external_body]
fn arm(a: &syn::Arm) -> (taken: Branch) {
    Branch { wild: matches!(a.pat, syn::Pat::Wild(_)), body: expr(&a.body) }
}

/// Calls `parse_body_with` on a `syn::Macro`, for a list of expressions.
#[verifier::external_body]
fn handed(mac: &syn::Macro) -> (args: Option<Vec<syn::Expr>>) {
    mac.parse_body_with(Punctuated::<syn::Expr, syn::token::Comma>::parse_terminated)
        .ok()
        .map(|list| list.into_iter().collect())
}

/// Takes over a `syn::Macro`: the last word of its path, and its arguments.
#[verifier::external_body]
fn invoked(mac: &syn::Macro, args: &Option<Vec<syn::Expr>>) -> (place: Place) {
    Place::Macro {
        name: idents(&mac.path).pop().unwrap_or_default(),
        given: args.as_ref().map(|list| list.iter().map(expr).collect()),
        span: place_of(mac.span()),
    }
}

// --- the walk ----------------------------------------------------------------

/// The parts met so far where the walk is.
struct Reader {
    parts: Vec<Part>,
}

impl Reader {
    /// Goes inside something, and gives what was met before it.
    fn enter(&mut self) -> (outer: Vec<Part>)
        ensures
            outer@ == old(self).parts@,
            final(self).parts@ == Seq::<Part>::empty(),
    {
        let mut outer: Vec<Part> = Vec::new();
        std::mem::swap(&mut outer, &mut self.parts);
        outer
    }

    /// Comes back out, with what was met inside, and apart from that in what was
    /// handed over.
    fn leave(&mut self, outer: Vec<Part>, place: Place, handed: Vec<Part>)
        ensures
            final(self).parts@ == outer@.push(
                Part { place, handed, parts: old(self).parts },
            ),
    {
        let mut outer = outer;
        std::mem::swap(&mut outer, &mut self.parts);
        self.parts.push(Part { place, handed, parts: outer });
    }
}

/// Each walk goes on as `syn::visit` does. What is a place of its own is entered
/// and left.
impl<'ast> Visit<'ast> for Reader {
    #[verifier::external_body]
    fn visit_item(&mut self, node: &'ast syn::Item) {
        let outer = item(node).map(|place| (self.enter(), place));
        syn::visit::visit_item(self, node);
        if let Some((outer, place)) = outer {
            self.leave(outer, place, Vec::new());
        }
    }

    #[verifier::external_body]
    fn visit_impl_item(&mut self, node: &'ast syn::ImplItem) {
        let outer = impl_item(node).map(|place| (self.enter(), place));
        syn::visit::visit_impl_item(self, node);
        if let Some((outer, place)) = outer {
            self.leave(outer, place, Vec::new());
        }
    }

    #[verifier::external_body]
    fn visit_local(&mut self, node: &'ast syn::Local) {
        let outer = self.enter();
        syn::visit::visit_local(self, node);
        self.leave(outer, local(node), Vec::new());
    }

    #[verifier::external_body]
    fn visit_expr(&mut self, node: &'ast syn::Expr) {
        let outer = expression(node).map(|place| (self.enter(), place));
        syn::visit::visit_expr(self, node);
        if let Some((outer, place)) = outer {
            self.leave(outer, place, Vec::new());
        }
    }

    #[verifier::external_body]
    fn visit_expr_macro(&mut self, node: &'ast syn::ExprMacro) {
        let args = handed(&node.mac);
        let outer = self.enter();
        args.iter().flatten().for_each(|arg| self.visit_expr(arg));
        let within = self.enter();
        syn::visit::visit_expr_macro(self, node);
        self.leave(outer, invoked(&node.mac, &args), within);
    }

    #[verifier::external_body]
    fn visit_stmt_macro(&mut self, node: &'ast syn::StmtMacro) {
        let args = handed(&node.mac);
        let outer = self.enter();
        args.iter().flatten().for_each(|arg| self.visit_expr(arg));
        let within = self.enter();
        syn::visit::visit_stmt_macro(self, node);
        self.leave(outer, invoked(&node.mac, &args), within);
    }
}

/// What a text holds once `syn::parse_file` has parsed it and the walk has gone
/// through it, or what `syn` finds wrong with it, in its words.
pub uninterp spec fn tree_read(source: Text) -> Result<Tree, Text>;

/// Calls `syn::parse_file` on a text, and `syn::visit::visit_file` on what comes
/// of it. Whether a text is parsed, what is met on the walk and the words a text
/// is refused with depend on the text alone.
#[verifier::external_body]
pub(crate) fn read_tree(source: &str) -> (tree: Result<Tree, String>)
    ensures
        match tree {
            Ok(t) => tree_read(source@) == Ok::<Tree, Text>(t),
            Err(e) => tree_read(source@) == Err::<Tree, Text>(e@),
        },
{
    let file = syn::parse_file(source).map_err(|e| e.to_string())?;
    let mut reader = Reader { parts: Vec::new() };
    syn::visit::visit_file(&mut reader, &file);
    Ok(Tree { attrs: file.attrs.iter().map(attr).collect(), parts: reader.parts })
}

}
