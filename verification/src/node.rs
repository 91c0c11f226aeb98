//! Making nodes, and what is read off them.
use crate::ast::{
    clone_annotation, clone_declaration, clone_entries, Annotation, DotKey, Span, Spanned,
    SurfaceDeclaration, SurfaceEntry, SurfaceExpression, SurfaceNode,
};
use crate::model::{
    ann_view, decl_view, expr_view, AnnV, AnnotV, DeclV, DotKeyV, EntryV, ExprV, NodeV, SpanV, Text,
};
use crate::text::{decimal, decimal_text, int_text, plain_decimal, shortest_decimal, signed_text};
use std::sync::Arc;
use vstd::prelude::*;

verus! {

/// A name.
pub open spec fn var_node(name: Text, escaped: bool, span: SpanV) -> NodeV {
    NodeV { expr: ExprV::VarRef { name, escaped, annotation: None }, span }
}

/// A string literal in plain quotation marks.
pub open spec fn string_node(content: Text, span: SpanV) -> NodeV {
    NodeV {
        expr: ExprV::StringLiteral { prefix: Seq::empty(), delimiter: "\""@, content },
        span,
    }
}

/// What stands where the source could not be parsed.
pub open spec fn error_node(span: SpanV) -> NodeV {
    NodeV { expr: ExprV::Error(span), span }
}

/// An entry without a key, with the region of its value.
pub open spec fn positional(value: NodeV) -> EntryV {
    EntryV { key: None, value, span: value.span }
}

/// A node of an expression and a region.
pub fn mk(expr: SurfaceExpression, span: Span) -> (r: Arc<SurfaceNode>)
    ensures
        r.deep_view() == (NodeV { expr: expr_view(expr), span: span.deep_view() }),
        r.expr == expr,
        r.span == span,
{
    Arc::new(SurfaceNode { expr, span })
}

/// A name.
pub fn mk_var(name: String, escaped: bool, span: Span) -> (r: Arc<SurfaceNode>)
    ensures
        r.deep_view() == var_node(name@, escaped, span.deep_view()),
{
    mk(SurfaceExpression::VarRef { name, escaped, annotation: None }, span)
}

/// A string literal in plain quotation marks.
pub fn mk_string(content: String, span: Span) -> (r: Arc<SurfaceNode>)
    ensures
        r.deep_view() == string_node(content@, span.deep_view()),
{
    mk(
        SurfaceExpression::StringLiteral {
            prefix: String::new(),
            delimiter: "\"".to_owned(),
            content,
        },
        span,
    )
}

/// What stands where the source could not be parsed.
pub fn mk_error(span: &Span) -> (r: Arc<SurfaceNode>)
    ensures
        r.deep_view() == error_node(span.deep_view()),
{
    mk(SurfaceExpression::Error(span.clone()), span.clone())
}

/// An entry without a key, with the region of its value.
pub fn mk_positional(value: Arc<SurfaceNode>) -> (r: Spanned<SurfaceEntry>)
    ensures
        r.deep_view() == positional(value.deep_view()),
{
    let span: Span = value.span.clone();
    Spanned { node: SurfaceEntry { key: None, value }, span }
}

/// The text by which literal keys are told apart; names and computed keys have none. Decimal keys
/// are told apart by their digits, not by the number that the digits round to: `0.3` and
/// `0.30000000000000001` count as two keys.
pub open spec fn key_text(e: ExprV) -> Option<Text> {
    match e {
        ExprV::StringLiteral { content, .. } => Some(content),
        ExprV::Int(n) => Some(int_text(n as int)),
        ExprV::U64(n) => Some(decimal(n as nat)),
        ExprV::Float(s) => Some(plain_decimal(s)),
        _ => None,
    }
}

/// The text by which literal keys are told apart.
pub fn key_to_string(expr: &SurfaceExpression) -> (r: Option<String>)
    ensures
        r.deep_view() == key_text(expr_view(*expr)),
{
    match expr {
        SurfaceExpression::StringLiteral { content, .. } => Some(content.clone()),
        SurfaceExpression::Int(n) => Some(signed_text(*n)),
        SurfaceExpression::U64(n) => Some(decimal_text(*n)),
        SurfaceExpression::Float(s) => Some(shortest_decimal(s)),
        _ => None,
    }
}

/// The dotted name `A.B.C` of a chain of field accesses that starts at a plain name.
pub open spec fn dot_path(n: NodeV) -> Option<Text>
    decreases n,
{
    match n.expr {
        ExprV::VarRef { name, escaped, .. } => if escaped {
            None
        } else {
            Some(name)
        },
        ExprV::Field { expr: Some(inner), field } => match (dot_path(*inner), field) {
            (Some(prefix), DotKeyV::Ident(id)) => Some(prefix + "."@ + id),
            _ => None,
        },
        _ => None,
    }
}

/// The dotted name of a chain of field accesses that starts at a plain name.
pub fn dot_path_name(node: &SurfaceNode) -> (r: Option<String>)
    ensures
        r.deep_view() == dot_path(node.deep_view()),
    decreases node,
{
    match &node.expr {
        SurfaceExpression::VarRef { name, escaped, .. } => if *escaped {
            None
        } else {
            Some(name.clone())
        },
        SurfaceExpression::Field { expr, field } => match expr {
            Some(inner) => {
                let prefix: Option<String> = dot_path_name(inner);
                match (prefix, field) {
                    (Some(p), DotKey::Ident(id)) => {
                        let mut out: String = p;
                        out.append(".");
                        out.append(id.as_str());
                        Some(out)
                    },
                    _ => None,
                }
            },
            None => None,
        },
        _ => None,
    }
}

/// The name that a binding key gives to what it binds.
pub open spec fn binding_name(key: NodeV) -> Option<Text> {
    match key.expr {
        ExprV::StringLiteral { content, .. } => Some(content),
        ExprV::VarRef { name, .. } => Some(name),
        _ => None,
    }
}

/// The name that a key binds, if it is a plain one.
pub fn key_name_of(key: &Arc<SurfaceNode>) -> (r: Option<String>)
    ensures
        r.deep_view() == binding_name(key.deep_view()),
{
    match &key.expr {
        SurfaceExpression::StringLiteral { content, .. } => Some(content.clone()),
        SurfaceExpression::VarRef { name, .. } => Some(name.clone()),
        _ => None,
    }
}

/// A class declaration without a name takes the name of the key that binds it; anything else stays
/// as it is.
pub open spec fn named_class(node: NodeV, key: NodeV) -> NodeV {
    match (binding_name(key), node.expr) {
        (Some(key_name), ExprV::Decl(decl)) => match *decl {
            DeclV::ClassDecl {
                name,
                params,
                superclasses,
                methods,
                determines,
                resolver,
                resolver_injective,
                structural,
            } => if name.len() == 0 {
                NodeV {
                    expr: ExprV::Decl(
                        Box::new(
                            DeclV::ClassDecl {
                                name: key_name,
                                params,
                                superclasses,
                                methods,
                                determines,
                                resolver,
                                resolver_injective,
                                structural,
                            },
                        ),
                    ),
                    span: node.span,
                }
            } else {
                node
            },
            _ => node,
        },
        _ => node,
    }
}

/// Gives a class declaration without a name the name of the key that binds it.
pub fn inject_class_name_from_key(node: Arc<SurfaceNode>, key: &Arc<SurfaceNode>) -> (r: Arc<
    SurfaceNode,
>)
    ensures
        r.deep_view() == named_class(node.deep_view(), key.deep_view()),
{
    broadcast use crate::model::group_models;

    let key_name: String = match &key.expr {
        SurfaceExpression::StringLiteral { content, .. } => content.clone(),
        SurfaceExpression::VarRef { name, .. } => name.clone(),
        _ => {
            return node;
        },
    };
    let renamed: Option<SurfaceDeclaration> = match &node.expr {
        SurfaceExpression::Decl(decl) => match &**decl {
            SurfaceDeclaration::ClassDecl { name, .. } => if name.as_str().is_empty() {
                rename_class(decl, key_name)
            } else {
                None
            },
            _ => None,
        },
        _ => None,
    };
    match renamed {
        Some(decl) => mk(SurfaceExpression::Decl(Box::new(decl)), node.span.clone()),
        None => node,
    }
}

fn rename_class(decl: &SurfaceDeclaration, new_name: String) -> (r: Option<SurfaceDeclaration>)
    ensures
        match decl_view(*decl) {
            DeclV::ClassDecl {
                name,
                params,
                superclasses,
                methods,
                determines,
                resolver,
                resolver_injective,
                structural,
            } => r is Some && decl_view(r->0) == (DeclV::ClassDecl {
                name: new_name@,
                params,
                superclasses,
                methods,
                determines,
                resolver,
                resolver_injective,
                structural,
            }),
            _ => r is None,
        },
{
    broadcast use crate::model::group_models;

    match clone_declaration(decl) {
        SurfaceDeclaration::ClassDecl {
            name,
            params,
            superclasses,
            methods,
            determines,
            resolver,
            resolver_injective,
            structural,
        } => Some(
            SurfaceDeclaration::ClassDecl {
                name: new_name,
                params,
                superclasses,
                methods,
                determines,
                resolver,
                resolver_injective,
                structural,
            },
        ),
        _ => None,
    }
}

/// The nodes as entries without keys.
pub open spec fn positionals(nodes: Seq<NodeV>) -> Seq<EntryV> {
    Seq::new(nodes.len(), |i: int| positional(nodes[i]))
}

/// The annotation that an expression after `@` stands for.
pub open spec fn annotation_of(n: NodeV) -> AnnV {
    match n.expr {
        ExprV::VarRef { name, annotation: None, .. } => if name == "Expr"@ {
            AnnV::Quote
        } else {
            AnnV::Simple(name)
        },
        ExprV::VarRef { name, annotation: Some(inner), .. } => AnnV::Annotated(
            Box::new(AnnV::Simple(name)),
            Box::new(inner.ann),
        ),
        ExprV::Dict(entries) => AnnV::PropertyDict(entries),
        ExprV::Call { func, args, implied, .. } => if implied && func.expr is VarRef {
            AnnV::PropertyDict(seq![positional(*func)] + positionals(args))
        } else {
            AnnV::PropertyDict(seq![positional(n)])
        },
        _ => AnnV::PropertyDict(seq![positional(n)]),
    }
}

/// The annotation that an expression after `@` stands for: a name, the quoting annotation `Expr`,
/// a dict of properties, or a dict of the head and the arguments of an implied call. Any other
/// expression becomes the one property of a dict.
pub fn expression_to_annotation(node: &Arc<SurfaceNode>) -> (r: Annotation)
    ensures
        ann_view(r) == annotation_of(node.deep_view()),
{
    broadcast use crate::model::group_models;

    match &node.expr {
        SurfaceExpression::VarRef { name, annotation, .. } => match annotation {
            None => if crate::text::text_is(name, "Expr") {
                Annotation::Quote
            } else {
                Annotation::Simple(name.clone())
            },
            Some(inner) => {
                let outer: Annotation = Annotation::Simple(name.clone());
                assert(ann_view(outer) == AnnV::Simple(name@));
                Annotation::Annotated(
                    Box::new(outer),
                    Box::new(clone_annotation(&inner.node)),
                )
            },
        },
        SurfaceExpression::Dict(entries) => Annotation::PropertyDict(clone_entries(entries)),
        SurfaceExpression::Call { func, args, implied, .. } => {
            let named: bool = matches!(&func.expr, SurfaceExpression::VarRef { .. });
            assert(named == func.deep_view().expr is VarRef);
            if *implied && named {
                Annotation::PropertyDict(call_entries(func, args))
            } else {
                Annotation::PropertyDict(one_entry(node))
            }
        },
        _ => Annotation::PropertyDict(one_entry(node)),
    }
}

fn one_entry(node: &Arc<SurfaceNode>) -> (r: Vec<Spanned<SurfaceEntry>>)
    ensures
        r.deep_view() == seq![positional(node.deep_view())],
{
    broadcast use crate::model::group_models;

    let mut out: Vec<Spanned<SurfaceEntry>> = Vec::new();
    out.push(mk_positional(Arc::clone(node)));
    assert(out.deep_view() =~= seq![positional(node.deep_view())]);
    out
}

fn call_entries(func: &Arc<SurfaceNode>, args: &Vec<Arc<SurfaceNode>>) -> (r: Vec<
    Spanned<SurfaceEntry>,
>)
    ensures
        r.deep_view() == seq![positional(func.deep_view())] + positionals(args.deep_view()),
{
    broadcast use crate::model::group_models;

    let mut out: Vec<Spanned<SurfaceEntry>> = one_entry(func);
    let ghost head = out.deep_view();
    let mut i: usize = 0;
    assert(head =~= head + positionals(args.deep_view().take(0)));
    while i < args.len()
        invariant
            i <= args@.len(),
            head == seq![positional(func.deep_view())],
            out.deep_view() == head + positionals(args.deep_view().take(i as int)),
        decreases args@.len() - i,
    {
        let ghost before = out.deep_view();
        out.push(mk_positional(Arc::clone(&args[i])));
        assert(args.deep_view()[i as int] == args@[i as int].deep_view());
        assert(out.deep_view() == before.push(positional(args.deep_view()[i as int])));
        i = i + 1;
        assert(out.deep_view() =~= head + positionals(args.deep_view().take(i as int)));
    }
    assert(args.deep_view().take(i as int) =~= args.deep_view());
    out
}

/// An expression with an annotation: a name without one takes it; anything else is wrapped.
pub open spec fn annotated_node(target: NodeV, annotation: AnnotV) -> NodeV {
    let span = span_of_pair(target.span, annotation.span);
    match target.expr {
        ExprV::VarRef { name, escaped, annotation: None } => NodeV {
            expr: ExprV::VarRef { name, escaped, annotation: Some(Box::new(annotation)) },
            span: SpanV { name: Some(name), ..span },
        },
        _ => NodeV {
            expr: ExprV::TypeAssert {
                annotation: Box::new(annotation),
                expr: Box::new(target),
            },
            span,
        },
    }
}

/// The region from the start of one to the end of the other, in the file of the first.
pub open spec fn span_of_pair(first: SpanV, second: SpanV) -> SpanV {
    crate::model::span_between(first, second, first.file)
}

/// Attaches an annotation to an expression: a name without one takes it; anything else is wrapped
/// in a type assertion.
pub fn create_annotated_node(target: Arc<SurfaceNode>, annotation: Spanned<Annotation>) -> (r: Arc<
    SurfaceNode,
>)
    ensures
        r.deep_view() == annotated_node(target.deep_view(), annotation.deep_view()),
{
    let mut span: Span = Span::between(&target.span, &annotation.span, &target.span.file);
    let plain: Option<(String, bool)> = match &target.expr {
        SurfaceExpression::VarRef { name, escaped, annotation: None } => Some(
            (name.clone(), *escaped),
        ),
        _ => None,
    };
    match plain {
        Some((name, escaped)) => {
            span.name = Some(Arc::new(name.clone()));
            mk(SurfaceExpression::VarRef { name, escaped, annotation: Some(annotation) }, span)
        },
        None => mk(SurfaceExpression::TypeAssert { annotation, expr: target }, span),
    }
}

/// An annotation leaves what it is attached to as it was: a name keeps its text, anything else
/// stands unchanged under a type assertion. The region goes from the start of the one to the end of
/// the other.
pub proof fn annotating_keeps_the_target(target: NodeV, annotation: AnnotV)
    ensures
        ({
            let r = annotated_node(target, annotation);
            &&& r.span.start_line == target.span.start_line
            &&& r.span.start_col == target.span.start_col
            &&& r.span.end_line == annotation.span.end_line
            &&& r.span.end_col == annotation.span.end_col
            &&& target.expr matches ExprV::VarRef { name, escaped, annotation: None } ==> {
                &&& r.expr is VarRef
                &&& r.expr->VarRef_name == name
                &&& r.expr->VarRef_escaped == escaped
                &&& r.expr->VarRef_annotation matches Some(a) && *a == annotation
                &&& dot_path(r) == dot_path(target)
            }
            &&& !(target.expr is VarRef && target.expr->VarRef_annotation is None) ==> {
                &&& r.expr is TypeAssert
                &&& *r.expr->TypeAssert_expr == target
                &&& *r.expr->TypeAssert_annotation == annotation
            }
        }),
{
}

/// A key names the class that it binds, and changes nothing else of it: neither its other parts, nor
/// a class that has a name, nor anything that is no class.
pub proof fn keys_name_classes(node: NodeV, key: NodeV, name: Text)
    requires
        match key.expr {
            ExprV::StringLiteral { content, .. } => content == name,
            ExprV::VarRef { name: word, .. } => word == name,
            _ => false,
        },
    ensures
        ({
            let r = named_class(node, key);
            &&& r.span == node.span
            &&& node.expr is Decl && *node.expr->Decl_0 is ClassDecl ==> {
                let c = *node.expr->Decl_0;
                &&& r.expr is Decl
                &&& r.expr->Decl_0->ClassDecl_name == if c->ClassDecl_name.len() == 0 {
                    name
                } else {
                    c->ClassDecl_name
                }
                &&& r.expr->Decl_0->ClassDecl_params == c->ClassDecl_params
                &&& r.expr->Decl_0->ClassDecl_superclasses == c->ClassDecl_superclasses
                &&& r.expr->Decl_0->ClassDecl_methods == c->ClassDecl_methods
                &&& r.expr->Decl_0->ClassDecl_determines == c->ClassDecl_determines
                &&& r.expr->Decl_0->ClassDecl_resolver == c->ClassDecl_resolver
                &&& r.expr->Decl_0->ClassDecl_resolver_injective
                    == c->ClassDecl_resolver_injective
                &&& r.expr->Decl_0->ClassDecl_structural == c->ClassDecl_structural
            }
            &&& !(node.expr is Decl && *node.expr->Decl_0 is ClassDecl) ==> r == node
        }),
{
}

/// The expression behind `@` can be told from the annotation: a name is the name of a simple
/// annotation, a dict gives its entries, an implied call its head and its arguments in their order,
/// and anything else is the one property.
pub proof fn annotations_hold_the_expression(n: NodeV)
    ensures
        match n.expr {
            ExprV::VarRef { name, annotation: None, .. } => if name == "Expr"@ {
                annotation_of(n) is Quote
            } else {
                annotation_of(n) matches AnnV::Simple(t) && t == name
            },
            ExprV::VarRef { name, annotation: Some(inner), .. } => annotation_of(
                n,
            ) matches AnnV::Annotated(outer, under) && *outer == AnnV::Simple(name) && *under
                == inner.ann,
            ExprV::Dict(entries) => annotation_of(n) matches AnnV::PropertyDict(es) && es
                == entries,
            ExprV::Call { func, args, implied, .. } => implied && func.expr is VarRef ==> {
                let es = annotation_of(n)->PropertyDict_0;
                &&& annotation_of(n) is PropertyDict
                &&& es.len() == 1 + args.len()
                &&& es[0].key is None && es[0].value == *func
                &&& forall|k: int|
                    0 <= k < args.len() ==> (#[trigger] es[k + 1]).value == args[k] && es[k
                        + 1].key is None
            },
            _ => annotation_of(n) matches AnnV::PropertyDict(es) && es.len() == 1
                && es[0].value == n && es[0].key is None,
        },
{
    if n.expr is Call && n.expr->Call_implied && n.expr->Call_func.expr is VarRef {
        let args = n.expr->Call_args;
        let es = annotation_of(n)->PropertyDict_0;
        assert forall|k: int| 0 <= k < args.len() implies (#[trigger] es[k + 1]).value == args[k]
            && es[k + 1].key is None by {
            assert(es[k + 1] == positionals(args)[k]);
        }
    }
}

/// The dotted name of a chain is that of what the field is taken of, a dot and the name of the
/// field; no other chain has one.
pub proof fn dotted_names_grow(inner: NodeV, field: Text, span: SpanV)
    ensures
        ({
            let n = NodeV {
                expr: ExprV::Field {
                    expr: Some(Box::new(inner)),
                    field: DotKeyV::Ident(field),
                },
                span,
            };
            match dot_path(inner) {
                Some(path) => dot_path(n) == Some(path + "."@ + field),
                None => dot_path(n) is None,
            }
        }),
{
}

} // verus!
