//! What is read of a source file's syntax.
//!
//! A file is held as the places where something is recorded, in the order they
//! are met, each with what lies inside it. Of an expression or a type only what
//! is asked of it is kept.

use vstd::prelude::*;

use crate::text::{self, Text};

verus! {

/// Where something stands: lines from one, columns from nought.
#[derive(Clone, Copy)]
pub struct Extent {
    pub start_line: u32,
    pub start_col: u32,
    pub end_line: u32,
    pub end_col: u32,
}

/// An expression, as far as anything asks.
pub enum Expression {
    Str(String),
    Path(Vec<String>),
    /// A call, by what it calls.
    Call(Box<Expression>),
    Method { name: String, receiver: Box<Expression> },
    Reference(Box<Expression>),
    Try(Box<Expression>),
    Await(Box<Expression>),
    /// A match, by what it matches.
    Match(Box<Expression>),
    Tuple(Vec<Expression>),
    Block(Vec<Step>),
    Other,
}

/// A statement: an expression that nothing ends, or anything else.
pub enum Step {
    Tail(Box<Expression>),
    Other,
}

/// A type as it is written, and what it is made of.
pub struct TypeRef {
    pub tokens: String,
    pub form: Form,
}

pub enum Form {
    Reference(Box<TypeRef>),
    Paren(Box<TypeRef>),
    Slice(Box<TypeRef>),
    Array(Box<TypeRef>),
    Tuple(Vec<TypeRef>),
    /// A path, and the arguments its last segment takes in angle brackets.
    Path { idents: Vec<String>, args: Vec<Arg> },
    Other,
}

/// A generic argument: a type, or a lifetime or constant.
pub enum Arg {
    Type(TypeRef),
    Other,
}

pub enum Import {
    Path(String, Box<Import>),
    Name(String),
    Rename { name: String, rename: String },
    Glob,
    Group(Vec<Import>),
}

/// An attribute: its name where that is a single word, and the paths listed
/// inside it.
pub struct Attr {
    pub name: Option<String>,
    pub metas: Vec<Vec<String>>,
    pub span: Extent,
}

pub enum Input {
    Receiver,
    Typed { name: Option<String>, ty: TypeRef, span: Extent },
}

pub struct Prototype {
    pub inputs: Vec<Input>,
    pub output: Option<(TypeRef, Extent)>,
}

pub struct Field {
    pub name: Option<String>,
    pub ty: TypeRef,
    pub span: Extent,
}

pub struct Variant {
    pub name: String,
    pub fields: Vec<Field>,
}

/// The pattern of a `let`.
pub enum Pattern {
    Wild,
    Ident(String),
    Other,
}

pub struct Branch {
    pub wild: bool,
    pub body: Expression,
}

/// A function: a free one or a method.
pub struct Function {
    pub method: bool,
    pub name: String,
    pub attrs: Vec<Attr>,
    pub signature: Prototype,
    pub is_unsafe: bool,
    pub span: Extent,
    pub signature_span: Extent,
    pub body: Vec<Step>,
    /// The body as it is written, token by token.
    pub tokens: String,
}

/// What a place in a file is.
pub enum Place {
    Fn(Function),
    Struct { name: String, fields: Vec<Field>, span: Extent },
    Enum { name: String, variants: Vec<Variant>, span: Extent },
    Trait { name: String, span: Extent },
    Const { name: String, value: Expression, span: Extent },
    Global { name: String, mutable: bool, value: Expression, span: Extent },
    Impl { ty: TypeRef, of_trait: Option<Vec<String>>, is_unsafe: bool, span: Extent },
    Alias { name: String, ty: TypeRef },
    Mod { name: String, attrs: Vec<Attr> },
    Use { tree: Import, span: Extent },
    Local { pattern: Pattern, init: Option<Expression>, span: Extent },
    Match { arms: Vec<Branch>, span: Extent },
    Unsafe { span: Extent },
    Call { func: Expression, args: Vec<Expression>, span: Extent },
    Method { name: String, args: Vec<Expression>, span: Extent },
    /// A macro, by the last word of its path, and its arguments where it was
    /// handed expressions.
    Macro { name: String, given: Option<Vec<Expression>>, span: Extent },
}

/// A place, and the places inside it in the order they are met. Those inside a
/// macro's arguments are kept apart from the rest.
pub struct Part {
    pub place: Place,
    pub handed: Vec<Part>,
    pub parts: Vec<Part>,
}

/// A whole file.
pub struct Tree {
    pub attrs: Vec<Attr>,
    pub parts: Vec<Part>,
}

// --- names -------------------------------------------------------------------

pub open spec fn dotted(idents: Seq<Text>) -> Text {
    text::joined(idents, "::"@)
}

pub open spec fn last_of(idents: Seq<Text>) -> Option<Text> {
    if idents.len() == 0 {
        None
    } else {
        Some(idents.last())
    }
}

pub fn last_ident(idents: &Vec<String>) -> (name: Option<String>)
    ensures
        name.deep_view() == last_of(idents.deep_view()),
{
    if idents.len() == 0 {
        None
    } else {
        Some(idents[idents.len() - 1].clone())
    }
}

/// The path a call is made through, when it has one.
pub open spec fn path_of(e: Expression) -> Option<Text> {
    match e {
        Expression::Path(idents) => Some(dotted(idents.deep_view())),
        _ => None,
    }
}

pub fn callee_path(e: &Expression) -> (path: Option<String>)
    ensures
        path.deep_view() == path_of(*e),
{
    match e {
        Expression::Path(idents) => Some(text::join(idents, "::")),
        _ => None,
    }
}

/// The last word of the path a call is made through.
pub open spec fn name_of(e: Expression) -> Option<Text> {
    match e {
        Expression::Path(idents) => last_of(idents.deep_view()),
        _ => None,
    }
}

pub fn callee_name(e: &Expression) -> (name: Option<String>)
    ensures
        name.deep_view() == name_of(*e),
{
    match e {
        Expression::Path(idents) => last_ident(idents),
        _ => None,
    }
}

/// The last word of a dotted path.
pub open spec fn bare(path: Text) -> Text {
    text::tail_after(path, "::"@)
}

/// The bare name of whatever an expression calls, when it calls something.
pub open spec fn called(e: Expression) -> Option<Text>
    decreases e,
{
    match e {
        Expression::Call(func) => match path_of(*func) {
            Some(path) => Some(bare(path)),
            None => None,
        },
        Expression::Method { name, .. } => Some(name@),
        Expression::Try(inner) => called(*inner),
        Expression::Reference(inner) => called(*inner),
        Expression::Await(inner) => called(*inner),
        _ => None,
    }
}

pub fn called_name(e: &Expression) -> (name: Option<String>)
    ensures
        name.deep_view() == called(*e),
    decreases e,
{
    match e {
        Expression::Call(func) => match callee_path(func) {
            Some(path) => Some(text::after_last(path.as_str(), "::")),
            None => None,
        },
        Expression::Method { name, .. } => Some(name.clone()),
        Expression::Try(inner) => called_name(inner),
        Expression::Reference(inner) => called_name(inner),
        Expression::Await(inner) => called_name(inner),
        _ => None,
    }
}

// --- values ------------------------------------------------------------------

/// A method that hands on the text it is called on.
pub open spec fn hands_on(name: Text) -> bool {
    name == "to_string"@ || name == "to_owned"@ || name == "into"@
}

/// The literal an expression is, behind a reference or a conversion.
pub open spec fn literal(e: Expression) -> Option<Text>
    decreases e,
{
    match e {
        Expression::Str(s) => Some(s@),
        Expression::Method { name, receiver } => if hands_on(name@) {
            literal(*receiver)
        } else {
            None
        },
        Expression::Reference(inner) => literal(*inner),
        _ => None,
    }
}

pub fn string_literal(e: &Expression) -> (s: Option<String>)
    ensures
        s.deep_view() == literal(*e),
    decreases e,
{
    match e {
        Expression::Str(s) => Some(s.clone()),
        Expression::Method { name, receiver } => if text::same(name.as_str(), "to_string") || text::same(
            name.as_str(),
            "to_owned",
        ) || text::same(name.as_str(), "into") {
            string_literal(receiver)
        } else {
            None
        },
        Expression::Reference(inner) => string_literal(inner),
        _ => None,
    }
}

/// The literal a body evaluates to, when the body is just that literal.
pub open spec fn sole_literal(body: Seq<Step>) -> Option<Text> {
    if body.len() == 1 {
        match body[0] {
            Step::Tail(e) => literal(*e),
            Step::Other => None,
        }
    } else {
        None
    }
}

pub fn sole_string_literal(body: &Vec<Step>) -> (s: Option<String>)
    ensures
        s.deep_view() == sole_literal(body@),
{
    if body.len() != 1 {
        return None;
    }
    match &body[0] {
        Step::Tail(e) => string_literal(e),
        Step::Other => None,
    }
}

/// What a `let` bound a name to, as far as syntax can tell.
pub enum Binding {
    Literal(String),
    /// The result of a named function, which is where the value came from.
    Call(String),
}

pub enum BindingV {
    Literal(Text),
    Call(Text),
}

impl DeepView for Binding {
    type V = BindingV;

    open spec fn deep_view(&self) -> BindingV {
        match self {
            Binding::Literal(s) => BindingV::Literal(s@),
            Binding::Call(s) => BindingV::Call(s@),
        }
    }
}

impl Binding {
    pub fn copy(&self) -> (b: Binding)
        ensures
            b.deep_view() == self.deep_view(),
    {
        match self {
            Binding::Literal(s) => Binding::Literal(s.clone()),
            Binding::Call(s) => Binding::Call(s.clone()),
        }
    }
}

/// A method whose result is still the value it is called on.
pub open spec fn keeps_value(name: Text) -> bool {
    name == "ok"@ || name == "unwrap"@ || name == "clone"@ || name == "to_path_buf"@ || name
        == "to_owned"@ || name == "into"@
}

fn is_keeping(name: &str) -> (r: bool)
    ensures
        r == keeps_value(name@),
{
    text::same(name, "ok") || text::same(name, "unwrap") || text::same(name, "clone")
        || text::same(name, "to_path_buf") || text::same(name, "to_owned") || text::same(
        name,
        "into",
    )
}

/// What an initialiser binds, when it is one that syntax can follow. What a
/// `match` yields comes from what it matches, whichever arm made it.
pub open spec fn bound(e: Expression) -> Option<BindingV>
    decreases e,
{
    match e {
        Expression::Str(s) => Some(BindingV::Literal(s@)),
        Expression::Try(inner) => bound(*inner),
        Expression::Reference(inner) => bound(*inner),
        Expression::Match(inner) => bound(*inner),
        Expression::Call(func) => match path_of(*func) {
            Some(path) => Some(BindingV::Call(bare(path))),
            None => None,
        },
        Expression::Method { name, receiver } => if keeps_value(name@) {
            bound(*receiver)
        } else {
            None
        },
        _ => None,
    }
}

pub fn binding_of(e: &Expression) -> (b: Option<Binding>)
    ensures
        b.deep_view() == bound(*e),
    decreases e,
{
    match e {
        Expression::Str(s) => Some(Binding::Literal(s.clone())),
        Expression::Try(inner) => binding_of(inner),
        Expression::Reference(inner) => binding_of(inner),
        Expression::Match(inner) => binding_of(inner),
        Expression::Call(func) => match callee_path(func) {
            Some(path) => Some(Binding::Call(text::after_last(path.as_str(), "::"))),
            None => None,
        },
        Expression::Method { name, receiver } => if is_keeping(name.as_str()) {
            binding_of(receiver)
        } else {
            None
        },
        _ => None,
    }
}

/// An arm body that does nothing at all: `{}`, `()`, or `{ () }`.
pub open spec fn idle(e: Expression) -> bool
    decreases e,
{
    match e {
        Expression::Tuple(elems) => elems@.len() == 0,
        Expression::Block(stmts) => stmts@.len() == 0 || (stmts@.len() == 1 && match stmts@[0] {
            Step::Tail(inner) => idle(*inner),
            Step::Other => false,
        }),
        _ => false,
    }
}

pub fn does_nothing(e: &Expression) -> (r: bool)
    ensures
        r == idle(*e),
    decreases e,
{
    match e {
        Expression::Tuple(elems) => elems.len() == 0,
        Expression::Block(stmts) => {
            if stmts.len() == 0 {
                return true;
            }
            if stmts.len() > 1 {
                return false;
            }
            assert(decreases_to!(*e => e->Block_0));
            assert(decreases_to!(*stmts => stmts@));
            assert(decreases_to!(stmts@ => stmts@[0]));
            match &stmts[0] {
                Step::Tail(inner) => does_nothing(inner),
                Step::Other => false,
            }
        },
        _ => false,
    }
}

/// A format string that builds an object rather than a message. Braces are how
/// one names its holes, so only a doubled brace is a brace.
pub open spec fn structured(s: Text) -> bool {
    (text::has_part(s, "{{"@) && text::has_part(s, "}}"@)) || text::has_part(s, "\":"@)
        || text::has_part(s, "\"{}\""@)
}

pub fn looks_structured(s: &str) -> (r: bool)
    ensures
        r == structured(s@),
{
    (text::contains(s, "{{") && text::contains(s, "}}")) || text::contains(s, "\":")
        || text::contains(s, "\"{}\"")
}

pub open spec fn on_network(path: Text) -> bool {
    text::has_part(path, "TcpStream"@) || text::has_part(path, "TcpListener"@) || text::has_part(
        path,
        "UdpSocket"@,
    ) || text::has_part(path, "reqwest"@) || text::has_part(path, "hyper"@) || text::has_part(
        path,
        "ureq"@,
    )
}

pub fn is_net_path(path: &str) -> (r: bool)
    ensures
        r == on_network(path@),
{
    text::contains(path, "TcpStream") || text::contains(path, "TcpListener") || text::contains(
        path,
        "UdpSocket",
    ) || text::contains(path, "reqwest") || text::contains(path, "hyper") || text::contains(
        path,
        "ureq",
    )
}

// --- types -------------------------------------------------------------------

/// The outermost name of a type, behind references: `&ast::Expr<'a>` is an
/// `Expr`.
pub open spec fn base_of(ty: TypeRef) -> Option<Text>
    decreases ty,
{
    match ty.form {
        Form::Reference(inner) => base_of(*inner),
        Form::Paren(inner) => base_of(*inner),
        Form::Path { idents, .. } => last_of(idents.deep_view()),
        _ => None,
    }
}

pub fn base_name(ty: &TypeRef) -> (name: Option<String>)
    ensures
        name.deep_view() == base_of(*ty),
    decreases ty,
{
    match &ty.form {
        Form::Reference(inner) => base_name(inner),
        Form::Paren(inner) => base_name(inner),
        Form::Path { idents, .. } => last_ident(idents),
        _ => None,
    }
}

/// Whether `char::is_alphanumeric` takes a character for a letter or a digit.
pub uninterp spec fn alphanumeric(c: char) -> bool;

/// Calls `char::is_alphanumeric`.
#[verifier::external_body]
fn is_alphanumeric(c: char) -> (r: bool)
    ensures
        r == alphanumeric(c),
{
    c.is_alphanumeric()
}

pub open spec fn in_word(c: char) -> bool {
    alphanumeric(c) || c == '_'
}

/// The tokens up to the `n`th character without their spaces, but for those
/// that keep two words apart.
pub open spec fn squeezed(raw: Text, n: nat) -> Text
    decreases n,
{
    if n == 0 {
        seq![]
    } else {
        let before = squeezed(raw, (n - 1) as nat);
        let c = raw[n - 1];
        if c == ' ' {
            before
        } else if (n == 1 || raw[n - 2] == ' ') && before.len() > 0 && in_word(before.last())
            && in_word(c) {
            before.push(' ').push(c)
        } else {
            before.push(c)
        }
    }
}

/// A type as text in which two spellings of one type are alike.
pub open spec fn text_of(ty: TypeRef) -> Text {
    squeezed(ty.tokens@, ty.tokens@.len())
}

pub fn type_text(ty: &TypeRef) -> (out: String)
    ensures
        out@ == text_of(*ty),
{
    let raw = text::to_chars(ty.tokens.as_str());
    let mut out: Vec<char> = Vec::new();
    let mut i: usize = 0;
    while i < raw.len()
        invariant
            i <= raw.len(),
            raw@ == ty.tokens@,
            out@ == squeezed(raw@, i as nat),
        decreases raw.len() - i,
    {
        let c = raw[i];
        if c != ' ' {
            if (i == 0 || raw[i - 1] == ' ') && out.len() > 0 {
                let last = out[out.len() - 1];
                if (is_alphanumeric(last) || last == '_') && (is_alphanumeric(c) || c == '_') {
                    out.push(' ');
                }
            }
            out.push(c);
        }
        i += 1;
    }
    text::from_chars(out.as_slice())
}

// --- imports and attributes --------------------------------------------------

/// The paths a `use` brings into scope, after those already found.
pub open spec fn leaves(tree: Import, prefix: Seq<Text>, out: Seq<Seq<Text>>) -> Seq<Seq<Text>>
    decreases tree, 0nat,
{
    match tree {
        Import::Path(name, inner) => leaves(*inner, prefix.push(name@), out),
        Import::Name(name) => out.push(prefix.push(name@)),
        Import::Rename { name, .. } => out.push(prefix.push(name@)),
        Import::Glob => out.push(prefix.push("*"@)),
        Import::Group(items) => leaves_in(items@, prefix, out, items@.len()),
    }
}

pub open spec fn leaves_in(
    items: Seq<Import>,
    prefix: Seq<Text>,
    out: Seq<Seq<Text>>,
    n: nat,
) -> Seq<Seq<Text>>
    decreases items, n,
{
    if n == 0 || n > items.len() {
        out
    } else {
        leaves(items[n - 1], prefix, leaves_in(items, prefix, out, (n - 1) as nat))
    }
}

pub(crate) fn extended(prefix: &Vec<String>, name: &str) -> (full: Vec<String>)
    ensures
        full.deep_view() == prefix.deep_view().push(name@),
{
    let mut full = text::copy_list(prefix);
    text::push(&mut full, name.to_owned());
    full
}

/// Finds the paths a `use` brings into scope.
pub fn use_leaves(tree: &Import, prefix: &Vec<String>, out: &mut Vec<Vec<String>>)
    ensures
        final(out).deep_view() == leaves(*tree, prefix.deep_view(), old(out).deep_view()),
    decreases tree,
{
    match tree {
        Import::Path(name, inner) => {
            let longer = extended(prefix, name.as_str());
            use_leaves(inner, &longer, out);
        },
        Import::Name(name) => text::push(out, extended(prefix, name.as_str())),
        Import::Rename { name, .. } => text::push(out, extended(prefix, name.as_str())),
        Import::Glob => text::push(out, extended(prefix, "*")),
        Import::Group(items) => {
            let ghost start = out.deep_view();
            let mut i: usize = 0;
            while i < items.len()
                invariant
                    i <= items.len(),
                    *tree == Import::Group(*items),
                    out.deep_view() == leaves_in(items@, prefix.deep_view(), start, i as nat),
                decreases items.len() - i,
            {
                assert(decreases_to!(*tree => tree->Group_0));
                assert(decreases_to!(*items => items@));
                assert(decreases_to!(items@ => items@[i as int]));
                use_leaves(&items[i], prefix, out);
                i += 1;
            }
        },
    }
}

/// `#[cfg(test)]`, the mark of a module that is no part of the product.
pub open spec fn marks_test(attr: Attr) -> bool {
    attr.name.deep_view() == Some("cfg"@) && exists|i: int|
        0 <= i < attr.metas@.len() && #[trigger] attr.metas.deep_view()[i] == seq!["test"@]
}

pub fn is_cfg_test_attr(attr: &Attr) -> (r: bool)
    ensures
        r == marks_test(*attr),
{
    let is_cfg = match &attr.name {
        Some(name) => text::same(name.as_str(), "cfg"),
        None => false,
    };
    if !is_cfg {
        return false;
    }
    let mut i: usize = 0;
    while i < attr.metas.len()
        invariant
            i <= attr.metas.len(),
            attr.name.deep_view() == Some("cfg"@),
            forall|k: int|
                0 <= k < i ==> #[trigger] attr.metas.deep_view()[k] != seq!["test"@],
        decreases attr.metas.len() - i,
    {
        let meta = &attr.metas[i];
        assert(attr.metas.deep_view()[i as int] == meta.deep_view());
        if meta.len() == 1 && text::same(meta[0].as_str(), "test") {
            assert(meta.deep_view() =~= seq!["test"@]);
            return true;
        }
        assert(meta.deep_view().len() == 1 ==> meta.deep_view()[0] != "test"@);
        i += 1;
    }
    false
}

pub open spec fn any_marks_test(attrs: Seq<Attr>) -> bool {
    exists|i: int| 0 <= i < attrs.len() && marks_test(#[trigger] attrs[i])
}

pub fn has_cfg_test(attrs: &Vec<Attr>) -> (r: bool)
    ensures
        r == any_marks_test(attrs@),
{
    let mut i: usize = 0;
    while i < attrs.len()
        invariant
            i <= attrs.len(),
            forall|k: int| 0 <= k < i ==> !marks_test(#[trigger] attrs@[k]),
        decreases attrs.len() - i,
    {
        if is_cfg_test_attr(&attrs[i]) {
            return true;
        }
        i += 1;
    }
    false
}

// --- what names and values mean ----------------------------------------------

/// A type's text is its tokens without their blanks, but for those that keep two
/// words apart.
pub proof fn lemma_type_text(raw: Text, n: nat)
    requires
        n <= raw.len(),
    ensures
        squeezed(raw, n).filter(|c: char| c != ' ') == raw.take(n as int).filter(
            |c: char| c != ' ',
        ),
        forall|i: int|
            0 <= i < squeezed(raw, n).len() && #[trigger] squeezed(raw, n)[i] == ' ' ==> 0 < i
                < squeezed(raw, n).len() - 1 && in_word(squeezed(raw, n)[i - 1]) && in_word(
                squeezed(raw, n)[i + 1],
            ),
    decreases n,
{
    reveal(Seq::filter);
    let full = |c: char| c != ' ';
    if n > 0 {
        lemma_type_text(raw, (n - 1) as nat);
        let before = squeezed(raw, (n - 1) as nat);
        let after = squeezed(raw, n);
        let c = raw[n - 1];
        assert(raw.take(n as int).drop_last() =~= raw.take(n - 1));
        assert(raw.take(n as int).last() == c);
        assert(before.push(c).drop_last() =~= before);
        assert(before.push(' ').push(c).drop_last() =~= before.push(' '));
        assert(before.push(' ').drop_last() =~= before);
        assert(before.push(' ').filter(full) == before.filter(full));
        assert(after.filter(full) == if c == ' ' {
            before.filter(full)
        } else {
            before.filter(full).push(c)
        });
        assert forall|i: int| 0 <= i < after.len() && #[trigger] after[i] == ' ' implies 0 < i
            < after.len() - 1 && in_word(after[i - 1]) && in_word(after[i + 1]) by {
            if i < before.len() {
                assert(before[i] == ' ');
            }
        }
    } else {
        assert(raw.take(0) =~= seq![]);
    }
}

/// Two spellings of a type that differ in a blank beside a sign are one type.
pub proof fn lemma_type_spelled(raw: Text, at: int)
    requires
        0 < at < raw.len(),
        raw[at] == ' ',
        !in_word(raw[at - 1]) || at + 1 == raw.len() || !in_word(raw[at + 1]),
        raw[at - 1] != ' ',
        at + 1 < raw.len() ==> raw[at + 1] != ' ',
    ensures
        squeezed(raw, raw.len()) == squeezed(
            raw.take(at) + raw.skip(at + 1),
            (raw.len() - 1) as nat,
        ),
{
    lemma_blank_passed(raw, at, raw.len());
}

proof fn lemma_same_start(a: Text, b: Text, n: nat)
    requires
        n <= a.len(),
        n <= b.len(),
        forall|i: int| 0 <= i < n ==> a[i] == b[i],
    ensures
        squeezed(a, n) == squeezed(b, n),
    decreases n,
{
    if n > 0 {
        lemma_same_start(a, b, (n - 1) as nat);
    }
}

proof fn lemma_squeezed_last(raw: Text, n: nat)
    requires
        0 < n <= raw.len(),
        raw[n - 1] != ' ',
    ensures
        squeezed(raw, n).len() > 0,
        squeezed(raw, n).last() == raw[n - 1],
{
}

proof fn lemma_blank_passed(raw: Text, at: int, n: nat)
    requires
        0 < at < n <= raw.len(),
        raw[at] == ' ',
        !in_word(raw[at - 1]) || at + 1 == raw.len() || !in_word(raw[at + 1]),
        raw[at - 1] != ' ',
        at + 1 < raw.len() ==> raw[at + 1] != ' ',
    ensures
        squeezed(raw, n) == squeezed(raw.take(at) + raw.skip(at + 1), (n - 1) as nat),
    decreases n,
{
    let other = raw.take(at) + raw.skip(at + 1);
    lemma_same_start(raw, other, at as nat);
    lemma_squeezed_last(raw, at as nat);
    if n == at + 1 {
        assert(squeezed(raw, n) == squeezed(raw, at as nat));
    } else {
        lemma_blank_passed(raw, at, (n - 1) as nat);
        assert(other[n - 2] == raw[n - 1]);
        if n == at + 2 {
            assert(squeezed(raw, (n - 1) as nat) == squeezed(raw, at as nat));
            assert(other[n - 3] == raw[at - 1]);
        } else {
            assert(other[n - 3] == raw[n - 2]);
        }
    }
}

/// What a type is called is the last word of its path, behind any reference.
pub proof fn lemma_type_called(tokens: String, inner: Box<TypeRef>, idents: Vec<String>, args: Vec<Arg>)
    ensures
        base_of(TypeRef { tokens, form: Form::Reference(inner) }) == base_of(*inner),
        base_of(TypeRef { tokens, form: Form::Paren(inner) }) == base_of(*inner),
        idents@.len() > 0 ==> base_of(TypeRef { tokens, form: Form::Path { idents, args } })
            == Some(idents@.last()@),
{
    if idents@.len() > 0 {
        assert(idents.deep_view().last() == idents@.last()@);
    }
}

/// A `let` binds a name to the literal or to the call that its value is, behind a
/// reference, a `?`, a `match` and what keeps the value.
pub proof fn lemma_bound(s: String, idents: Vec<String>, inner: Box<Expression>, name: String)
    ensures
        bound(Expression::Str(s)) == Some(BindingV::Literal(s@)),
        idents@.len() > 0 && (forall|i: int|
            0 <= i < idents@.len() ==> !text::has_part(#[trigger] idents@[i]@, ":"@)) ==> bound(
            Expression::Call(Box::new(Expression::Path(idents))),
        ) == Some(BindingV::Call(text::tail_after(text::joined(idents.deep_view(), "::"@), "::"@))),
        bound(Expression::Reference(inner)) == bound(*inner),
        bound(Expression::Try(inner)) == bound(*inner),
        bound(Expression::Match(inner)) == bound(*inner),
        name@ == "ok"@ || name@ == "unwrap"@ || name@ == "clone"@ || name@ == "to_path_buf"@
            || name@ == "to_owned"@ || name@ == "into"@ ==> bound(
            Expression::Method { name, receiver: inner },
        ) == bound(*inner),
{
}

/// A literal is what it says, behind a reference or a conversion to a string.
pub proof fn lemma_literal(s: String, inner: Box<Expression>, name: String)
    ensures
        literal(Expression::Str(s)) == Some(s@),
        literal(Expression::Reference(inner)) == literal(*inner),
        name@ == "to_string"@ || name@ == "to_owned"@ || name@ == "into"@ ==> literal(
            Expression::Method { name, receiver: inner },
        ) == literal(*inner),
        sole_literal(seq![Step::Tail(inner)]) == literal(*inner),
{
}

/// What is called is the method, or the last word of the path, behind a `?`, a
/// reference and an `await`.
pub proof fn lemma_called(inner: Box<Expression>, name: String, receiver: Box<Expression>)
    ensures
        called(Expression::Method { name, receiver }) == Some(name@),
        called(Expression::Try(inner)) == called(*inner),
        called(Expression::Reference(inner)) == called(*inner),
        called(Expression::Await(inner)) == called(*inner),
{
}

/// A `use` brings in one path for each thing it names, each under the words before
/// it; renaming one does not change what it is.
pub proof fn lemma_leaves(
    name: String,
    rename: String,
    inner: Box<Import>,
    items: Vec<Import>,
    prefix: Seq<Text>,
    out: Seq<Seq<Text>>,
)
    ensures
        leaves(Import::Name(name), prefix, out) == out.push(prefix.push(name@)),
        leaves(Import::Rename { name, rename }, prefix, out) == leaves(
            Import::Name(name),
            prefix,
            out,
        ),
        leaves(Import::Path(name, inner), prefix, out) == leaves(*inner, prefix.push(name@), out),
        leaves(Import::Glob, prefix, out) == out.push(prefix.push("*"@)),
        items@.len() == 2 ==> leaves(Import::Group(items), prefix, out) == leaves(
            items@[1],
            prefix,
            leaves(items@[0], prefix, out),
        ),
{
    if items@.len() == 2 {
        let none = leaves_in(items@, prefix, out, 0);
        let one = leaves_in(items@, prefix, out, 1);
        assert(none == out);
        assert(one == leaves(items@[0], prefix, none));
        assert(leaves_in(items@, prefix, out, 2) == leaves(items@[1], prefix, one));
    }
}

}
