//! The surface syntax tree that the parser builds.
use crate::model::{ann_view, decl_view, span_between};
use std::sync::Arc;
use vstd::prelude::*;

verus! {

/// A region of a source file. Lines and columns count from one; the end column is the column
/// after the last character. `name` is the name of what the region declares, where it has one.
#[derive(Debug, PartialEq)]
pub struct Span {
    pub file: Arc<String>,
    pub start_line: u32,
    pub start_col: u32,
    pub end_line: u32,
    pub end_col: u32,
    pub name: Option<Arc<String>>,
}

impl Clone for Span {
    fn clone(&self) -> (r: Span)
        ensures
            r == *self,
    {
        Span {
            file: Arc::clone(&self.file),
            start_line: self.start_line,
            start_col: self.start_col,
            end_line: self.end_line,
            end_col: self.end_col,
            name: match &self.name {
                Some(n) => Some(Arc::clone(n)),
                None => None,
            },
        }
    }
}

impl Span {
    /// A region without a name.
    pub fn new(
        start_line: u32,
        start_col: u32,
        end_line: u32,
        end_col: u32,
        file: Arc<String>,
    ) -> (r: Span)
        ensures
            r == (Span { file, start_line, start_col, end_line, end_col, name: None }),
    {
        Span { file, start_line, start_col, end_line, end_col, name: None }
    }

    /// The region from the start of one region to the end of another.
    pub fn between(start: &Span, end: &Span, file: &Arc<String>) -> (r: Span)
        ensures
            r.deep_view() == span_between(start.deep_view(), end.deep_view(), file@),
    {
        Span::new(
            start.start_line,
            start.start_col,
            end.end_line,
            end.end_col,
            Arc::clone(file),
        )
    }
}

/// A value with the region of the source it was read from.
#[derive(Debug, Clone, PartialEq)]
pub struct Spanned<T> {
    pub node: T,
    pub span: Span,
}

/// An expression with its region.
#[derive(Debug, PartialEq)]
pub struct SurfaceNode {
    pub expr: SurfaceExpression,
    pub span: Span,
}

impl SurfaceNode {
    /// An expression with its region.
    pub fn new(expr: SurfaceExpression, span: Span) -> (r: SurfaceNode)
        ensures
            r == (SurfaceNode { expr, span }),
    {
        SurfaceNode { expr, span }
    }
}

/// The field of a dot access.
#[derive(Debug, PartialEq)]
pub enum DotKey {
    Ident(String),
    Int(i64),
}

/// An expression of the surface syntax.
#[allow(inconsistent_fields)]
#[derive(Debug, PartialEq)]
pub enum SurfaceExpression {
    /// A signed integer literal.
    Int(i64),
    /// An integer literal above the signed range.
    U64(u64),
    /// A decimal literal, held as it is written.
    Float(String),
    /// A string literal: its prefix, its delimiter and the raw text between the delimiters.
    StringLiteral { prefix: String, delimiter: String, content: String },
    /// A name; `escaped` is true for the `$name` form.
    VarRef { name: String, escaped: bool, annotation: Option<Spanned<Annotation>> },
    /// `expr.field`, or the leading-dot form `.field` when there is no expression.
    Field { expr: Option<Arc<SurfaceNode>>, field: DotKey },
    /// `[key: value ...]`
    Dict(Vec<Spanned<SurfaceEntry>>),
    /// `[func arg name: value]`; `implied` is false for the `[call func ...]` form.
    Call {
        func: Arc<SurfaceNode>,
        args: Vec<Arc<SurfaceNode>>,
        named_args: Vec<Spanned<SurfaceNamedArg>>,
        implied: bool,
        pipe_span: Option<Span>,
    },
    /// `[fn@Type [let params] body]`
    Fn {
        return_ann: Option<Spanned<Annotation>>,
        params: Vec<Spanned<SurfaceParam>>,
        body: Arc<SurfaceNode>,
        desugared: bool,
    },
    /// Several expressions, evaluated in order.
    Sequential(Vec<Arc<SurfaceNode>>),
    /// `[quote expr]`
    Quote(Arc<SurfaceNode>),
    /// `[unquote expr]`
    Unquote(Arc<SurfaceNode>),
    /// `[unquote-splice expr]`
    UnquoteSplice(Arc<SurfaceNode>),
    /// `[match scrutinee pattern: body ...]`
    Match { scrutinee: Arc<SurfaceNode>, arms: Vec<SurfaceMatchArm> },
    /// `[@Type expr]`
    TypeAssert { annotation: Spanned<Annotation>, expr: Arc<SurfaceNode> },
    /// `[pattern binding ...]`
    PatternDecl { bindings: Vec<Arc<SurfaceNode>> },
    /// `[let binding ...]`
    LetDecl { bindings: Vec<Arc<SurfaceNode>> },
    /// `lhs | rhs`
    Pipe { lhs: Arc<SurfaceNode>, rhs: Arc<SurfaceNode>, pipe_span: Option<Span> },
    /// `...`, `...name` or `...name@Type`
    Placeholder(Option<String>, Option<Spanned<Annotation>>),
    /// A declaration in expression position.
    Decl(Box<SurfaceDeclaration>),
    /// What stands where the source could not be parsed.
    Error(Span),
}

/// An entry of a dict: without a key it is indexed by its position.
#[derive(Debug, PartialEq)]
pub struct SurfaceEntry {
    pub key: Option<Arc<SurfaceNode>>,
    pub value: Arc<SurfaceNode>,
}

/// A named argument of a call.
#[derive(Debug, PartialEq)]
pub struct SurfaceNamedArg {
    pub name: String,
    pub value: Arc<SurfaceNode>,
    pub annotation: Option<Spanned<Annotation>>,
}

/// A parameter of a function.
#[derive(Debug, PartialEq)]
pub struct SurfaceParam {
    pub name: String,
    pub annotation: Option<Spanned<Annotation>>,
    pub variadic: bool,
}

/// An arm of a match.
#[derive(Debug, PartialEq)]
pub struct SurfaceMatchArm {
    pub pattern: Arc<SurfaceNode>,
    pub let_bindings: Option<Arc<SurfaceNode>>,
    pub guard: Option<Arc<SurfaceNode>>,
    pub body: Vec<Arc<SurfaceNode>>,
}

/// An annotation after `@`.
#[derive(Debug, PartialEq)]
pub enum Annotation {
    /// `@Name`
    Simple(String),
    /// `@Expr`: the annotated expression is not evaluated.
    Quote,
    /// `@Outer@Inner`
    Annotated(Box<Annotation>, Box<Annotation>),
    /// `@[key: value ...]`
    PropertyDict(Vec<Spanned<SurfaceEntry>>),
}

/// A declaration.
#[allow(inconsistent_fields)]
#[derive(Debug, PartialEq)]
pub enum SurfaceDeclaration {
    /// `[type [let params] body]`
    TypeAlias {
        params: Vec<(String, Option<Spanned<Annotation>>)>,
        body: Arc<SurfaceNode>,
    },
    /// `[class [let params] [metadata] method: Type ...]`
    ClassDecl {
        name: String,
        params: Vec<String>,
        superclasses: Vec<(String, Vec<String>)>,
        methods: Vec<Spanned<SurfaceEntry>>,
        determines: Vec<Arc<SurfaceNode>>,
        resolver: Option<Arc<SurfaceNode>>,
        resolver_injective: bool,
        structural: String,
    },
    /// `[instance Class pattern: methods ...]`
    InstanceDecl {
        class_name: Arc<SurfaceNode>,
        arms: Vec<(Arc<SurfaceNode>, Vec<Spanned<SurfaceEntry>>)>,
    },
    /// `[syntax-class name pattern: [...] message: "..."]`
    SyntaxClass { name: String, pattern: Arc<SurfaceNode>, message: Option<String> },
}

/// An item of a document.
#[derive(Debug, PartialEq)]
pub enum SurfaceItem {
    Expr(Arc<SurfaceNode>),
    Decl(Spanned<SurfaceDeclaration>),
}

/// A section of a file, with the header of its separator line.
#[derive(Debug, PartialEq)]
pub struct SurfaceDocument {
    pub header: indexmap::IndexMap<String, Arc<SurfaceNode>>,
    pub items: Vec<SurfaceItem>,
}

/// A parsed file.
#[derive(Debug, Clone, PartialEq)]
pub struct SurfaceProgram {
    pub documents: Vec<Spanned<Arc<SurfaceDocument>>>,
}

/// A copy of an optional node; the tree below it is shared.
pub fn clone_opt_node(n: &Option<Arc<SurfaceNode>>) -> (r: Option<Arc<SurfaceNode>>)
    ensures
        r == *n,
{
    match n {
        Some(x) => Some(Arc::clone(x)),
        None => None,
    }
}

/// A copy of an entry; the trees below it are shared.
pub fn clone_entry(e: &Spanned<SurfaceEntry>) -> (r: Spanned<SurfaceEntry>)
    ensures
        r == *e,
{
    Spanned {
        node: SurfaceEntry {
            key: clone_opt_node(&e.node.key),
            value: Arc::clone(&e.node.value),
        },
        span: e.span.clone(),
    }
}

/// A copy of a list of entries.
pub fn clone_entries(v: &Vec<Spanned<SurfaceEntry>>) -> (r: Vec<Spanned<SurfaceEntry>>)
    ensures
        r@ == v@,
        r.deep_view() == v.deep_view(),
{
    broadcast use crate::model::group_models;

    let mut out: Vec<Spanned<SurfaceEntry>> = Vec::new();
    let mut i: usize = 0;
    while i < v.len()
        invariant
            i <= v@.len(),
            out@ == v@.take(i as int),
        decreases v@.len() - i,
    {
        out.push(clone_entry(&v[i]));
        i = i + 1;
        assert(out@ =~= v@.take(i as int));
    }
    assert(out@ =~= v@);
    out
}

/// A copy of a list of nodes; the trees are shared.
pub fn clone_nodes(v: &Vec<Arc<SurfaceNode>>) -> (r: Vec<Arc<SurfaceNode>>)
    ensures
        r@ == v@,
        r.deep_view() == v.deep_view(),
{
    broadcast use crate::model::group_models;

    let mut out: Vec<Arc<SurfaceNode>> = Vec::new();
    let mut i: usize = 0;
    while i < v.len()
        invariant
            i <= v@.len(),
            out@ == v@.take(i as int),
        decreases v@.len() - i,
    {
        out.push(Arc::clone(&v[i]));
        i = i + 1;
        assert(out@ =~= v@.take(i as int));
    }
    assert(out@ =~= v@);
    out
}

/// A copy of a list of strings.
pub fn clone_strings(v: &Vec<String>) -> (r: Vec<String>)
    ensures
        r@ == v@,
        r.deep_view() == v.deep_view(),
{
    broadcast use crate::model::group_models;

    let mut out: Vec<String> = Vec::new();
    let mut i: usize = 0;
    while i < v.len()
        invariant
            i <= v@.len(),
            out@ == v@.take(i as int),
        decreases v@.len() - i,
    {
        out.push(v[i].clone());
        i = i + 1;
        assert(out@ =~= v@.take(i as int));
    }
    assert(out@ =~= v@);
    out
}

/// A copy of an annotation.
pub fn clone_annotation(a: &Annotation) -> (r: Annotation)
    ensures
        ann_view(r) == ann_view(*a),
    decreases a,
{
    broadcast use crate::model::group_models;

    match a {
        Annotation::Simple(s) => Annotation::Simple(s.clone()),
        Annotation::Quote => Annotation::Quote,
        Annotation::Annotated(x, y) => {
            let outer: Annotation = clone_annotation(x);
            let inner: Annotation = clone_annotation(y);
            Annotation::Annotated(Box::new(outer), Box::new(inner))
        },
        Annotation::PropertyDict(v) => Annotation::PropertyDict(clone_entries(v)),
    }
}

/// A copy of an annotation with its region.
pub fn clone_annot(a: &Spanned<Annotation>) -> (r: Spanned<Annotation>)
    ensures
        r.deep_view() == a.deep_view(),
{
    Spanned { node: clone_annotation(&a.node), span: a.span.clone() }
}

/// A copy of an optional annotation.
pub fn clone_opt_annot(a: &Option<Spanned<Annotation>>) -> (r: Option<Spanned<Annotation>>)
    ensures
        r.deep_view() == a.deep_view(),
{
    match a {
        Some(x) => Some(clone_annot(x)),
        None => None,
    }
}

fn clone_superclasses(v: &Vec<(String, Vec<String>)>) -> (r: Vec<(String, Vec<String>)>)
    ensures
        r.deep_view() == v.deep_view(),
{
    broadcast use crate::model::group_models;

    let mut out: Vec<(String, Vec<String>)> = Vec::new();
    let mut i: usize = 0;
    while i < v.len()
        invariant
            i <= v@.len(),
            out.deep_view() == v.deep_view().take(i as int),
        decreases v@.len() - i,
    {
        let copy: (String, Vec<String>) = (v[i].0.clone(), clone_strings(&v[i].1));
        assert(copy.deep_view() == v@[i as int].deep_view());
        assert(v.deep_view()[i as int] == v@[i as int].deep_view());
        let ghost before = out.deep_view();
        let ghost copied = copy.deep_view();
        out.push(copy);
        assert(out.deep_view() == before.push(copied));
        i = i + 1;
        assert(out.deep_view() =~= v.deep_view().take(i as int));
    }
    assert(out.deep_view() =~= v.deep_view());
    out
}

fn clone_type_params(
    v: &Vec<(String, Option<Spanned<Annotation>>)>,
) -> (r: Vec<(String, Option<Spanned<Annotation>>)>)
    ensures
        r.deep_view() == v.deep_view(),
{
    broadcast use crate::model::group_models;

    let mut out: Vec<(String, Option<Spanned<Annotation>>)> = Vec::new();
    let mut i: usize = 0;
    while i < v.len()
        invariant
            i <= v@.len(),
            out.deep_view() == v.deep_view().take(i as int),
        decreases v@.len() - i,
    {
        let copy: (String, Option<Spanned<Annotation>>) = (
            v[i].0.clone(),
            clone_opt_annot(&v[i].1),
        );
        assert(copy.deep_view() == v@[i as int].deep_view());
        assert(v.deep_view()[i as int] == v@[i as int].deep_view());
        let ghost before = out.deep_view();
        let ghost copied = copy.deep_view();
        out.push(copy);
        assert(out.deep_view() == before.push(copied));
        i = i + 1;
        assert(out.deep_view() =~= v.deep_view().take(i as int));
    }
    assert(out.deep_view() =~= v.deep_view());
    out
}

fn clone_instance_arms(
    v: &Vec<(Arc<SurfaceNode>, Vec<Spanned<SurfaceEntry>>)>,
) -> (r: Vec<(Arc<SurfaceNode>, Vec<Spanned<SurfaceEntry>>)>)
    ensures
        r.deep_view() == v.deep_view(),
{
    broadcast use crate::model::group_models;

    let mut out: Vec<(Arc<SurfaceNode>, Vec<Spanned<SurfaceEntry>>)> = Vec::new();
    let mut i: usize = 0;
    while i < v.len()
        invariant
            i <= v@.len(),
            out.deep_view() == v.deep_view().take(i as int),
        decreases v@.len() - i,
    {
        let copy: (Arc<SurfaceNode>, Vec<Spanned<SurfaceEntry>>) = (
            Arc::clone(&v[i].0),
            clone_entries(&v[i].1),
        );
        assert(copy.deep_view() == v@[i as int].deep_view());
        assert(v.deep_view()[i as int] == v@[i as int].deep_view());
        let ghost before = out.deep_view();
        let ghost copied = copy.deep_view();
        out.push(copy);
        assert(out.deep_view() == before.push(copied));
        i = i + 1;
        assert(out.deep_view() =~= v.deep_view().take(i as int));
    }
    assert(out.deep_view() =~= v.deep_view());
    out
}

/// A copy of an optional string.
pub fn clone_opt_string(s: &Option<String>) -> (r: Option<String>)
    ensures
        r == *s,
{
    match s {
        Some(x) => Some(x.clone()),
        None => None,
    }
}

/// A copy of a declaration; the trees below it are shared.
pub fn clone_declaration(d: &SurfaceDeclaration) -> (r: SurfaceDeclaration)
    ensures
        decl_view(r) == decl_view(*d),
{
    broadcast use crate::model::group_models;

    match d {
        SurfaceDeclaration::TypeAlias { params, body } => SurfaceDeclaration::TypeAlias {
            params: clone_type_params(params),
            body: Arc::clone(body),
        },
        SurfaceDeclaration::ClassDecl {
            name,
            params,
            superclasses,
            methods,
            determines,
            resolver,
            resolver_injective,
            structural,
        } => SurfaceDeclaration::ClassDecl {
            name: name.clone(),
            params: clone_strings(params),
            superclasses: clone_superclasses(superclasses),
            methods: clone_entries(methods),
            determines: clone_nodes(determines),
            resolver: clone_opt_node(resolver),
            resolver_injective: *resolver_injective,
            structural: structural.clone(),
        },
        SurfaceDeclaration::InstanceDecl { class_name, arms } => SurfaceDeclaration::InstanceDecl {
            class_name: Arc::clone(class_name),
            arms: clone_instance_arms(arms),
        },
        SurfaceDeclaration::SyntaxClass { name, pattern, message } =>
        SurfaceDeclaration::SyntaxClass {
            name: name.clone(),
            pattern: Arc::clone(pattern),
            message: clone_opt_string(message),
        },
    }
}

} // verus!
