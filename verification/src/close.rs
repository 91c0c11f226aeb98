//! Closing a form: what a closing bracket makes of the innermost open form.
use crate::ast::{
    Annotation, Span, Spanned, SurfaceDeclaration, SurfaceEntry, SurfaceExpression, SurfaceItem,
    SurfaceMatchArm, SurfaceNode, SurfaceParam,
};
use crate::diagnostic::{parse_diag, DiagV, TypeDiagnostic};
use crate::frame::{
    form_name, helped_err, opened_at, plain_err, CallArg, CallArgV, ErrV, FrameV, ParseError,
    StackFrame,
};
use crate::lexer::{TokV, Token};
use crate::model::{
    boxed_annot, decl_view, expr_view, span_between, AnnotV, ArmV, DeclV, EntryV, ExprV, ItemV,
    NodeV, ParamV, SpanV, Text,
};
use crate::node::{error_node, mk, mk_error};
use crate::place::{
    commit_let_pending, extend_arms, extend_last_arm, let_default, names_of, placed, push_value,
};
use crate::state::{
    call_func, call_rest, closed_off, named_args, noted, positional_args, put_recovered, respan,
    respan_entries, same_step, split_args, with_node, with_placed, Parser, StateV, StepV,
};
use crate::text::{join3, text_is};
use std::sync::Arc;
use vstd::prelude::*;

verus! {

/// The state after an error in a form that is closed: the error is recorded and takes the place of
/// the form.
pub open spec fn close_error(s: StateV, e: ErrV) -> StateV {
    put_recovered(
        StateV {
            diagnostics: s.diagnostics.push(
                DiagV { help: e.help, ..noted(parse_diag(e.message, e.span), s.stack) },
            ),
            ..s
        },
        error_node(e.span),
    )
}

/// The state after the expression of a closed form is put in place.
pub open spec fn put_closed(s: StateV, node: NodeV) -> StateV {
    let p = placed(s.stack, s.items, node);
    match p.error {
        Some(e) => close_error(with_placed(s, p), e),
        None => with_node(s, p, node),
    }
}

/// The state after a declaration is put in place: an item of the document, or an expression inside
/// a form.
pub open spec fn put_decl(s: StateV, decl: DeclV, span: SpanV) -> StateV {
    if s.stack.len() == 0 {
        StateV { items: s.items.push(ItemV::Decl(decl, span)), node: Some(span), ..s }
    } else {
        put_closed(s, NodeV { expr: ExprV::Decl(Box::new(decl)), span })
    }
}

/// The region of a form from its opening to its closing bracket.
pub open spec fn form_span(start: SpanV, end: SpanV) -> SpanV {
    span_between(start, end, end.file)
}

/// A dict closes to its entries; a single type assertion or pipe without a key stands for itself.
pub open spec fn close_entries(
    s: StateV,
    entries: Seq<EntryV>,
    span_start: SpanV,
    span: SpanV,
) -> StateV {
    if entries.len() == 1 && entries[0].key is None && (entries[0].value.expr is TypeAssert
        || entries[0].value.expr is Pipe) {
        put_closed(s, entries[0].value)
    } else {
        put_closed(
            s,
            NodeV { expr: ExprV::Dict(entries), span: form_span(span_start, span) },
        )
    }
}

/// Closes `[key: value ...]`, or `[@Type expr]` where there is a floating annotation.
pub open spec fn close_dict(
    s: StateV,
    entries: Seq<EntryV>,
    pending_key: Option<NodeV>,
    floating: Option<AnnotV>,
    span_start: SpanV,
    span: SpanV,
) -> StateV {
    match (pending_key, floating) {
        (Some(key), _) => close_error(
            s,
            plain_err("key without value: expected `:` and value"@, key.span),
        ),
        (None, Some(ann)) => if entries.len() == 1 && entries[0].key is None {
            let value = entries[0].value;
            put_closed(
                s,
                NodeV {
                    expr: ExprV::TypeAssert { annotation: Box::new(ann), expr: Box::new(value) },
                    span: span_between(ann.span, value.span, value.span.file),
                },
            )
        } else if entries.len() == 0 {
            close_error(
                s,
                plain_err("type-assert form [@Annotation expr] requires an expression"@, span),
            )
        } else {
            close_entries(s, respan(entries), span_start, span)
        },
        (None, None) => close_entries(s, respan(entries), span_start, span),
    }
}

/// Closes `[f arg ...]` or `[call f arg ...]`.
pub open spec fn close_call(
    s: StateV,
    func: Option<NodeV>,
    implied: bool,
    args: Seq<CallArgV>,
    pending_key: Option<(Text, SpanV, Option<AnnotV>)>,
    span_start: SpanV,
    span: SpanV,
) -> StateV {
    match pending_key {
        Some((key, key_span, _)) => close_error(
            s,
            plain_err("named argument `"@ + key + "` without value"@, key_span),
        ),
        None => match call_func(func, args) {
            Some(callee) => put_closed(
                s,
                NodeV {
                    expr: ExprV::Call {
                        func: Box::new(callee),
                        args: positional_args(call_rest(func, args)),
                        named_args: named_args(call_rest(func, args)),
                        implied,
                        pipe_span: None,
                    },
                    span: form_span(span_start, span),
                },
            ),
            None => if args.len() == 0 {
                close_error(
                    s,
                    plain_err("call form requires at least a function expression"@, span),
                )
            } else {
                close_error(
                    s,
                    plain_err(
                        "call function cannot be a named argument (got `"@ + args[0]->Named_0
                            + ":`)"@,
                        span,
                    ),
                )
            },
        },
    }
}

/// The body of a function: one expression stands for itself, several are a sequence.
pub open spec fn fn_body(body: Seq<NodeV>, span: SpanV) -> NodeV {
    if body.len() == 1 {
        body[0]
    } else {
        NodeV { expr: ExprV::Sequential(body), span }
    }
}

/// Closes `[fn [let params] body ...]`. A function without a body is an error.
pub open spec fn close_fn(
    s: StateV,
    params: Seq<ParamV>,
    body: Seq<NodeV>,
    return_ann: Option<AnnotV>,
    span_start: SpanV,
    span: SpanV,
) -> StateV {
    if body.len() == 0 {
        close_error(
            s,
            helped_err(
                "fn form requires a body expression"@,
                span,
                "a fn must have at least one body expression: [fn [let x] body]"@,
            ),
        )
    } else {
        put_closed(
            s,
            NodeV {
                expr: ExprV::Fn {
                    return_ann: boxed_annot(return_ann),
                    params,
                    body: Box::new(fn_body(body, form_span(span_start, span))),
                    desugared: false,
                },
                span: form_span(span_start, span),
            },
        )
    }
}

/// The name of a constructor in a message.
pub open spec fn constructor_name(key: NodeV) -> Text {
    match key.expr {
        ExprV::VarRef { name, .. } => name,
        _ => "Constructor"@,
    }
}

/// Closes `[type ...]`. A single entry without a key is the body; else the body is the dict of the
/// entries.
pub open spec fn close_type(
    s: StateV,
    params: Seq<(Text, Option<AnnotV>)>,
    type_exprs: Seq<EntryV>,
    pending_key: Option<NodeV>,
    span_start: SpanV,
    span: SpanV,
) -> StateV {
    match pending_key {
        Some(key) => close_error(
            s,
            plain_err(
                "constructor `"@ + constructor_name(key) + ":` requires a payload value (e.g. `"@
                    + constructor_name(key) + ": [field: Type]`)"@,
                span,
            ),
        ),
        None => if type_exprs.len() == 0 {
            close_error(
                s,
                plain_err("type-alias form requires at least one type expression"@, span),
            )
        } else {
            let body = if type_exprs.len() == 1 && type_exprs[0].key is None {
                type_exprs[0].value
            } else {
                NodeV { expr: ExprV::Dict(type_exprs), span: form_span(span_start, span) }
            };
            put_decl(s, DeclV::TypeAlias { params, body }, form_span(span_start, span))
        },
    }
}

/// Closes a form that holds one expression.
pub open spec fn close_one(s: StateV, node: Option<NodeV>, message: Text, span: SpanV) -> StateV {
    match node {
        Some(n) => put_closed(s, n),
        None => close_error(s, plain_err(message, span)),
    }
}

/// Closes `[syntax-class ...]`.
pub open spec fn close_syntax(
    s: StateV,
    name: Option<Text>,
    pattern: Option<NodeV>,
    message: Option<Text>,
    pending_key: Option<NodeV>,
    span_start: SpanV,
    span: SpanV,
) -> StateV {
    if pending_key is Some {
        close_error(s, plain_err("syntax-class: key without value"@, span))
    } else {
        match (name, pattern) {
            (None, _) => close_error(s, plain_err("syntax-class form requires a name"@, span)),
            (Some(_), None) => close_error(
                s,
                plain_err("syntax-class form requires a 'pattern:' field"@, span),
            ),
            (Some(name), Some(pattern)) => put_decl(
                s,
                DeclV::SyntaxClass { name, pattern, message },
                form_span(span_start, span),
            ),
        }
    }
}

/// The arms of a match at its end: a last expression without a colon is the last of the body of the
/// last arm.
pub open spec fn final_arms(arms: Seq<ArmV>, last: Option<NodeV>) -> Seq<ArmV> {
    match last {
        Some(node) => extend_last_arm(arms, node),
        None => arms,
    }
}

/// Closes `[match ...]`.
pub open spec fn close_match(
    s: StateV,
    scrutinee: Option<NodeV>,
    arms: Seq<ArmV>,
    pending_pattern_expr: Option<NodeV>,
    pending_pattern: Option<(NodeV, Option<NodeV>)>,
    span_start: SpanV,
    span: SpanV,
) -> StateV {
    match scrutinee {
        None => close_error(s, plain_err("match form requires a scrutinee expression"@, span)),
        Some(scrutinee) => if pending_pattern_expr is Some && arms.len() == 0 {
            close_error(
                s,
                plain_err("match form has an expression with no arm to belong to"@, span),
            )
        } else if pending_pattern_expr is None && pending_pattern is Some {
            close_error(
                s,
                plain_err("match pattern must be followed by a body expression"@, span),
            )
        } else if arms.len() == 0 {
            close_error(
                s,
                plain_err("match form requires at least one pattern: body pair"@, span),
            )
        } else {
            put_closed(
                s,
                NodeV {
                    expr: ExprV::Match {
                        scrutinee: Box::new(scrutinee),
                        arms: final_arms(arms, pending_pattern_expr),
                    },
                    span: form_span(span_start, span),
                },
            )
        },
    }
}

/// What the metadata of a class says.
pub struct MetadataV {
    pub determines: Seq<NodeV>,
    pub resolver: Option<NodeV>,
    pub injective: bool,
    pub superclasses: Seq<(Text, Seq<Text>)>,
    pub structural: Text,
}

pub open spec fn no_metadata() -> MetadataV {
    MetadataV {
        determines: Seq::empty(),
        resolver: None,
        injective: false,
        superclasses: Seq::empty(),
        structural: Seq::empty(),
    }
}

/// The values of a list of entries.
pub open spec fn entry_values(entries: Seq<EntryV>) -> Seq<NodeV> {
    Seq::new(entries.len(), |i: int| entries[i].value)
}

/// The superclass constraints `[Class param ...]` among a list of entries.
pub open spec fn constraints(entries: Seq<EntryV>) -> Seq<(Text, Seq<Text>)>
    decreases entries.len(),
{
    if entries.len() == 0 {
        Seq::empty()
    } else {
        match entries.last().value.expr {
            ExprV::Call { func, args, .. } => match func.expr {
                ExprV::VarRef { name, .. } => constraints(entries.drop_last()).push(
                    (name, names_of(args)),
                ),
                _ => constraints(entries.drop_last()),
            },
            _ => constraints(entries.drop_last()),
        }
    }
}

/// The metadata with one more entry.
pub open spec fn with_metadata(m: MetadataV, e: EntryV) -> MetadataV {
    match e.key {
        None => m,
        Some(key) => match crate::node::binding_name(key) {
            None => m,
            Some(name) => if name == "determines"@ {
                match e.value.expr {
                    ExprV::Dict(entries) => MetadataV {
                        determines: m.determines + entry_values(entries),
                        ..m
                    },
                    _ => m,
                }
            } else if name == "resolver"@ {
                MetadataV { resolver: Some(e.value), ..m }
            } else if name == "injective"@ {
                match e.value.expr {
                    ExprV::Int(n) => MetadataV { injective: n != 0, ..m },
                    _ => m,
                }
            } else if name == "superclasses"@ {
                match e.value.expr {
                    ExprV::Dict(entries) => MetadataV {
                        superclasses: m.superclasses + constraints(entries),
                        ..m
                    },
                    _ => m,
                }
            } else if name == "structural"@ {
                match crate::node::binding_name(e.value) {
                    Some(text) => MetadataV { structural: text, ..m },
                    None => m,
                }
            } else {
                m
            },
        },
    }
}

/// The metadata that a list of entries says.
pub open spec fn metadata_of(entries: Seq<EntryV>) -> MetadataV
    decreases entries.len(),
{
    if entries.len() == 0 {
        no_metadata()
    } else {
        with_metadata(metadata_of(entries.drop_last()), entries.last())
    }
}

/// The metadata of a class, where it has a dict of it.
pub open spec fn class_metadata(node: Option<NodeV>) -> MetadataV {
    match node {
        Some(n) => match n.expr {
            ExprV::Dict(entries) => metadata_of(entries),
            _ => no_metadata(),
        },
        None => no_metadata(),
    }
}

/// Closes `[class ...]`.
pub open spec fn close_class(
    s: StateV,
    name: Option<Text>,
    params: Seq<Text>,
    methods: Seq<EntryV>,
    pending_key: Option<NodeV>,
    structural_metadata: Option<NodeV>,
    span_start: SpanV,
    span: SpanV,
) -> StateV {
    if pending_key is Some {
        close_error(s, plain_err("class form has incomplete method (key without value)"@, span))
    } else {
        let m = class_metadata(structural_metadata);
        put_decl(
            s,
            DeclV::ClassDecl {
                name: match name {
                    Some(n) => n,
                    None => Seq::empty(),
                },
                params,
                superclasses: m.superclasses,
                methods: respan(methods),
                determines: m.determines,
                resolver: m.resolver,
                resolver_injective: m.injective,
                structural: m.structural,
            },
            form_span(span_start, span),
        )
    }
}

/// The arms with the open methods added to the last.
pub open spec fn with_methods(
    arms: Seq<(NodeV, Seq<EntryV>)>,
    methods: Seq<EntryV>,
) -> Seq<(NodeV, Seq<EntryV>)> {
    if methods.len() == 0 || arms.len() == 0 {
        arms
    } else {
        arms.drop_last().push((arms.last().0, arms.last().1 + methods))
    }
}

/// The arms, each method with the region of its key and its value.
pub open spec fn respan_arms(arms: Seq<(NodeV, Seq<EntryV>)>) -> Seq<(NodeV, Seq<EntryV>)> {
    Seq::new(arms.len(), |i: int| (arms[i].0, respan(arms[i].1)))
}

/// Closes `[instance ...]`.
pub open spec fn close_instance(
    s: StateV,
    class_name: Option<NodeV>,
    arms: Seq<(NodeV, Seq<EntryV>)>,
    pending_arm_pattern: Option<NodeV>,
    pending_key: Option<NodeV>,
    current_arm_methods: Seq<EntryV>,
    span_start: SpanV,
    span: SpanV,
) -> StateV {
    if pending_key is Some {
        close_error(
            s,
            plain_err("instance form has incomplete method (key without value)"@, span),
        )
    } else if pending_arm_pattern is Some {
        close_error(
            s,
            plain_err("instance form has incomplete arm (pattern without methods)"@, span),
        )
    } else {
        match class_name {
            None => close_error(s, plain_err("instance form requires a class name"@, span)),
            Some(class_name) => if current_arm_methods.len() > 0 && arms.len() == 0 {
                close_error(
                    s,
                    plain_err("instance form has orphaned methods without pattern"@, span),
                )
            } else {
                put_decl(
                    s,
                    DeclV::InstanceDecl {
                        class_name,
                        arms: respan_arms(with_methods(arms, current_arm_methods)),
                    },
                    form_span(span_start, span),
                )
            },
        }
    }
}

/// Closes `[pattern ...]`.
pub open spec fn close_pattern(
    s: StateV,
    bindings: Seq<NodeV>,
    span_start: SpanV,
    span: SpanV,
) -> StateV {
    put_closed(
        s,
        NodeV { expr: ExprV::PatternDecl { bindings }, span: form_span(span_start, span) },
    )
}

/// The bindings of `[let ...]` at its end: a pair that is still open is committed.
pub open spec fn final_bindings(
    bindings: Seq<NodeV>,
    pending_key: Option<NodeV>,
    pending_rhs: Option<NodeV>,
) -> Result<Seq<NodeV>, ErrV> {
    match (pending_key, pending_rhs) {
        (Some(key), Some(rhs)) => match let_default(key, rhs) {
            Ok(binding) => Ok(bindings.push(binding)),
            Err(e) => Err(e),
        },
        _ => Ok(bindings),
    }
}

/// Closes `[let ...]`.
pub open spec fn close_let(
    s: StateV,
    bindings: Seq<NodeV>,
    pending_key: Option<NodeV>,
    pending_rhs: Option<NodeV>,
    span_start: SpanV,
    span: SpanV,
) -> StateV {
    match final_bindings(bindings, pending_key, pending_rhs) {
        Ok(bindings) => put_closed(
            s,
            NodeV { expr: ExprV::LetDecl { bindings }, span: form_span(span_start, span) },
        ),
        Err(e) => close_error(s, e),
    }
}

/// Whether the innermost form is a match with a pattern that waits for its body.
pub open spec fn pattern_waits(stack: Seq<FrameV>) -> bool {
    stack.len() > 0 && match stack.last() {
        FrameV::Match { pending_pattern_expr, pending_pattern, .. } => pending_pattern_expr is Some
            || pending_pattern is Some,
        _ => false,
    }
}

/// Closes `[case [let bindings] pattern body ...]`: an arm of the match around it.
pub open spec fn close_case(
    s: StateV,
    let_bindings: Option<NodeV>,
    pattern: Option<NodeV>,
    body: Seq<NodeV>,
    span_start: SpanV,
    span: SpanV,
) -> StateV {
    let at = form_span(span_start, span);
    match (let_bindings, pattern) {
        (Some(bindings), Some(pattern)) => if body.len() == 0 {
            close_error(s, plain_err("case arm requires [let bindings] pattern body"@, at))
        } else {
            let outside = close_error(
                s,
                plain_err("[case ...] must appear inside [match ...]"@, at),
            );
            if pattern_waits(s.stack) {
                close_error(
                    s,
                    plain_err(
                        "[case ...] cannot appear when a pattern is pending — complete the prior arm first"@,
                        at,
                    ),
                )
            } else if s.stack.len() == 0 {
                outside
            } else {
                match s.stack.last() {
                    FrameV::Match {
                        scrutinee,
                        arms,
                        pending_pattern_expr,
                        pending_pattern,
                        span_start,
                    } => StateV {
                        stack: s.stack.drop_last().push(
                            FrameV::Match {
                                scrutinee,
                                arms: arms.push(
                                    ArmV {
                                        pattern,
                                        let_bindings: Some(bindings),
                                        guard: None,
                                        body,
                                    },
                                ),
                                pending_pattern_expr,
                                pending_pattern,
                                span_start,
                            },
                        ),
                        ..s
                    },
                    _ => outside,
                }
            }
        },
        _ => close_error(s, plain_err("case arm requires [let bindings] pattern body"@, at)),
    }
}

/// The state after a form is closed; the form is already off the stack.
pub open spec fn closed(s: StateV, f: FrameV, span: SpanV) -> StateV {
    match f {
        FrameV::Dict { entries, pending_key, span_start, floating_annotation, .. } => close_dict(
            s,
            entries,
            pending_key,
            floating_annotation,
            span_start,
            span,
        ),
        FrameV::Call { func, implied, args, pending_key, span_start } => close_call(
            s,
            func,
            implied,
            args,
            pending_key,
            span_start,
            span,
        ),
        FrameV::Fn { params, body, return_ann, span_start, .. } => close_fn(
            s,
            params,
            body,
            return_ann,
            span_start,
            span,
        ),
        FrameV::TypeAlias { params, type_exprs, pending_key, span_start } => close_type(
            s,
            params,
            type_exprs,
            pending_key,
            span_start,
            span,
        ),
        FrameV::Quote { expr, span_start } => close_one(
            s,
            match expr {
                Some(n) => Some(
                    NodeV { expr: ExprV::Quote(Box::new(n)), span: form_span(span_start, span) },
                ),
                None => None,
            },
            "quote form requires an expression"@,
            span,
        ),
        FrameV::Unquote { expr, span_start } => close_one(
            s,
            match expr {
                Some(n) => Some(
                    NodeV { expr: ExprV::Unquote(Box::new(n)), span: form_span(span_start, span) },
                ),
                None => None,
            },
            "unquote form requires an expression"@,
            span,
        ),
        FrameV::UnquoteSplice { expr, span_start } => close_one(
            s,
            match expr {
                Some(n) => Some(
                    NodeV {
                        expr: ExprV::UnquoteSplice(Box::new(n)),
                        span: form_span(span_start, span),
                    },
                ),
                None => None,
            },
            "unquote-splice form requires an expression"@,
            span,
        ),
        FrameV::SyntaxClass { name, pattern, message, pending_key, span_start } => close_syntax(
            s,
            name,
            pattern,
            message,
            pending_key,
            span_start,
            span,
        ),
        FrameV::Match { scrutinee, arms, pending_pattern_expr, pending_pattern, span_start } =>
        close_match(
            s,
            scrutinee,
            arms,
            pending_pattern_expr,
            pending_pattern,
            span_start,
            span,
        ),
        FrameV::ClassDecl {
            name,
            params,
            methods,
            pending_key,
            structural_metadata,
            span_start,
        } => close_class(
            s,
            name,
            params,
            methods,
            pending_key,
            structural_metadata,
            span_start,
            span,
        ),
        FrameV::InstanceDecl {
            class_name,
            arms,
            pending_arm_pattern,
            pending_key,
            current_arm_methods,
            span_start,
        } => close_instance(
            s,
            class_name,
            arms,
            pending_arm_pattern,
            pending_key,
            current_arm_methods,
            span_start,
            span,
        ),
        FrameV::PatternDecl { bindings, span_start } => close_pattern(
            s,
            bindings,
            span_start,
            span,
        ),
        FrameV::LetDecl { bindings, pending_key, pending_rhs, span_start } => close_let(
            s,
            bindings,
            pending_key,
            pending_rhs,
            span_start,
            span,
        ),
        FrameV::CaseDecl { let_bindings, pattern, body, span_start } => close_case(
            s,
            let_bindings,
            pattern,
            body,
            span_start,
            span,
        ),
        FrameV::Pipe { .. } => close_error(
            s,
            plain_err("pipe operator '|' requires a right-hand expression"@, span),
        ),
        FrameV::AnnotationCollect { .. } => s,
    }
}

/// What a closing bracket at place `i` leads to.
#[verifier::opaque]
pub open spec fn close_step(s: StateV, tokens: Seq<TokV>, i: int) -> StepV {
    let span = tokens[i].span;
    if s.stack.len() == 0 {
        StepV::Fatal(parse_diag("unmatched closing bracket"@, span))
    } else {
        let f = s.stack.last();
        if f is AnnotationCollect {
            StepV::Fatal(parse_diag("annotation @ requires an expression before `]`"@, span))
        } else {
            let popped = StateV {
                stack: s.stack.drop_last(),
                popped: Some((form_name(f), opened_at(f))),
                ..s
            };
            closed_off(closed(popped, f, span), span, tokens, i)
        }
    }
}

fn push_values(out: &mut Vec<Arc<SurfaceNode>>, entries: &Vec<Spanned<SurfaceEntry>>)
    ensures
        final(out).deep_view() == old(out).deep_view() + entry_values(entries.deep_view()),
{
    broadcast use crate::model::group_models;

    let ghost start = out.deep_view();
    let ghost all = entries.deep_view();
    let mut i: usize = 0;
    assert(start =~= start + entry_values(all).take(0));
    while i < entries.len()
        invariant
            i <= entries@.len(),
            all == entries.deep_view(),
            out.deep_view() == start + entry_values(all).take(i as int),
        decreases entries@.len() - i,
    {
        let ghost before = out.deep_view();
        assert(all[i as int] == entries@[i as int].deep_view());
        out.push(Arc::clone(&entries[i].node.value));
        assert(out.deep_view() == before.push(all[i as int].value));
        i = i + 1;
        assert(out.deep_view() =~= start + entry_values(all).take(i as int));
    }
    assert(entry_values(all).take(i as int) =~= entry_values(all));
}

fn names_among(nodes: &Vec<Arc<SurfaceNode>>) -> (r: Vec<String>)
    ensures
        r.deep_view() == names_of(nodes.deep_view()),
{
    broadcast use crate::model::group_models;

    let ghost all = nodes.deep_view();
    let mut out: Vec<String> = Vec::new();
    let mut i: usize = 0;
    while i < nodes.len()
        invariant
            i <= nodes@.len(),
            all == nodes.deep_view(),
            out.deep_view() == names_of(all.take(i as int)),
        decreases nodes@.len() - i,
    {
        let ghost before = out.deep_view();
        assert(all[i as int] == nodes@[i as int].deep_view());
        assert(all.take(i + 1).drop_last() =~= all.take(i as int));
        assert(all.take(i + 1).last() == all[i as int]);
        match &nodes[i].expr {
            SurfaceExpression::VarRef { name, .. } => {
                out.push(name.clone());
                assert(out.deep_view() == before.push(name@));
            },
            _ => {},
        }
        i = i + 1;
    }
    assert(all.take(i as int) =~= all);
    out
}

fn push_constraints(
    out: &mut Vec<(String, Vec<String>)>,
    entries: &Vec<Spanned<SurfaceEntry>>,
)
    ensures
        final(out).deep_view() == old(out).deep_view() + constraints(entries.deep_view()),
{
    broadcast use crate::model::group_models;

    let ghost start = out.deep_view();
    let ghost all = entries.deep_view();
    let mut i: usize = 0;
    assert(start =~= start + constraints(all.take(0)));
    while i < entries.len()
        invariant
            i <= entries@.len(),
            all == entries.deep_view(),
            out.deep_view() == start + constraints(all.take(i as int)),
        decreases entries@.len() - i,
    {
        let ghost before = out.deep_view();
        assert(all[i as int] == entries@[i as int].deep_view());
        assert(all.take(i + 1).drop_last() =~= all.take(i as int));
        assert(all.take(i + 1).last() == all[i as int]);
        match constraint_of(&entries[i].node.value) {
            Some(c) => {
                let ghost cv = c.deep_view();
                out.push(c);
                assert(out.deep_view() == before.push(cv));
            },
            None => {},
        }
        i = i + 1;
        assert(out.deep_view() =~= start + constraints(all.take(i as int)));
    }
    assert(all.take(i as int) =~= all);
}

fn constraint_of(value: &Arc<SurfaceNode>) -> (r: Option<(String, Vec<String>)>)
    ensures
        match value.deep_view().expr {
            ExprV::Call { func, args, .. } => match func.expr {
                ExprV::VarRef { name, .. } => r.deep_view() == Some((name, names_of(args))),
                _ => r is None,
            },
            _ => r is None,
        },
{
    broadcast use crate::model::group_models;

    match &value.expr {
        SurfaceExpression::Call { func, args, .. } => {
            assert(func.deep_view().expr == expr_view(func.expr));
            match &func.expr {
                SurfaceExpression::VarRef { name, .. } => Some((name.clone(), names_among(args))),
                _ => None,
            }
        },
        _ => None,
    }
}

/// What the metadata of a class says.
struct Metadata {
    determines: Vec<Arc<SurfaceNode>>,
    resolver: Option<Arc<SurfaceNode>>,
    injective: bool,
    superclasses: Vec<(String, Vec<String>)>,
    structural: String,
}

impl Metadata {
    spec fn model(self) -> MetadataV {
        MetadataV {
            determines: self.determines.deep_view(),
            resolver: self.resolver.deep_view(),
            injective: self.injective,
            superclasses: self.superclasses.deep_view(),
            structural: self.structural@,
        }
    }

    fn new() -> (r: Metadata)
        ensures
            r.model() == no_metadata(),
    {
        broadcast use crate::model::group_models;

        Metadata {
            determines: Vec::new(),
            resolver: None,
            injective: false,
            superclasses: Vec::new(),
            structural: String::new(),
        }
    }

    fn read(&mut self, e: &Spanned<SurfaceEntry>)
        ensures
            final(self).model() == with_metadata(old(self).model(), e.deep_view()),
    {
        broadcast use crate::model::group_models;

        let name: &String = match &e.node.key {
            None => {
                return;
            },
            Some(key) => match &key.expr {
                SurfaceExpression::VarRef { name, .. } => name,
                SurfaceExpression::StringLiteral { content, .. } => content,
                _ => {
                    return;
                },
            },
        };
        assert(crate::node::binding_name(e.deep_view().key->0) == Some(name@));
        if text_is(name, "determines") {
            match &e.node.value.expr {
                SurfaceExpression::Dict(entries) => {
                    push_values(&mut self.determines, entries);
                },
                _ => {},
            }
        } else if text_is(name, "resolver") {
            self.resolver = Some(Arc::clone(&e.node.value));
        } else if text_is(name, "injective") {
            match &e.node.value.expr {
                SurfaceExpression::Int(n) => {
                    self.injective = *n != 0;
                },
                _ => {},
            }
        } else if text_is(name, "superclasses") {
            match &e.node.value.expr {
                SurfaceExpression::Dict(entries) => {
                    push_constraints(&mut self.superclasses, entries);
                },
                _ => {},
            }
        } else if text_is(name, "structural") {
            match &e.node.value.expr {
                SurfaceExpression::StringLiteral { content, .. } => {
                    self.structural = content.clone();
                },
                SurfaceExpression::VarRef { name: text, .. } => {
                    self.structural = text.clone();
                },
                _ => {},
            }
        }
    }
}

fn read_metadata(node: &Option<Arc<SurfaceNode>>) -> (r: Metadata)
    ensures
        r.model() == class_metadata(node.deep_view()),
{
    broadcast use crate::model::group_models;

    let mut m: Metadata = Metadata::new();
    match node {
        Some(n) => match &n.expr {
            SurfaceExpression::Dict(entries) => {
                let ghost all = entries.deep_view();
                let mut i: usize = 0;
                while i < entries.len()
                    invariant
                        i <= entries@.len(),
                        all == entries.deep_view(),
                        m.model() == metadata_of(all.take(i as int)),
                    decreases entries@.len() - i,
                {
                    assert(all[i as int] == entries@[i as int].deep_view());
                    assert(all.take(i + 1).drop_last() =~= all.take(i as int));
                    assert(all.take(i + 1).last() == all[i as int]);
                    m.read(&entries[i]);
                    i = i + 1;
                }
                assert(all.take(i as int) =~= all);
            },
            _ => {},
        },
        None => {},
    }
    m
}

fn respan_all(
    arms: Vec<(Arc<SurfaceNode>, Vec<Spanned<SurfaceEntry>>)>,
) -> (r: Vec<(Arc<SurfaceNode>, Vec<Spanned<SurfaceEntry>>)>)
    ensures
        r.deep_view() == respan_arms(arms.deep_view()),
{
    broadcast use crate::model::group_models;

    let ghost all = arms.deep_view();
    let mut out: Vec<(Arc<SurfaceNode>, Vec<Spanned<SurfaceEntry>>)> = Vec::new();
    let mut i: usize = 0;
    while i < arms.len()
        invariant
            i <= arms@.len(),
            all == arms.deep_view(),
            out.deep_view() == respan_arms(all).take(i as int),
        decreases arms@.len() - i,
    {
        let ghost before = out.deep_view();
        assert(all[i as int] == arms@[i as int].deep_view());
        let changed: (Arc<SurfaceNode>, Vec<Spanned<SurfaceEntry>>) = (
            Arc::clone(&arms[i].0),
            respan_entries(crate::ast::clone_entries(&arms[i].1)),
        );
        let ghost cv = changed.deep_view();
        assert(cv == respan_arms(all)[i as int]);
        out.push(changed);
        assert(out.deep_view() == before.push(cv));
        i = i + 1;
        assert(out.deep_view() =~= respan_arms(all).take(i as int));
    }
    assert(out.deep_view() =~= respan_arms(all));
    out
}

impl Parser {
    /// Records an error in a form that is closed; it takes the place of the form.
    fn record_close_error(&mut self, e: ParseError)
        ensures
            final(self).deep_view() == close_error(old(self).deep_view(), e.deep_view()),
    {
        broadcast use crate::model::group_models;

        let node: Arc<SurfaceNode> = mk_error(&e.span);
        let d: TypeDiagnostic = self.note_form(
            TypeDiagnostic::error("parse-error", e.message, e.span),
        );
        let d: TypeDiagnostic = match e.help {
            Some(h) => d.with_help(h.as_str()),
            None => d,
        };
        self.diagnostics.push(d);
        self.put_during_recovery(node);
    }

    fn reject_close(&mut self, message: &str, span: &Span)
        ensures
            final(self).deep_view() == close_error(
                old(self).deep_view(),
                plain_err(message@, span.deep_view()),
            ),
    {
        self.record_close_error(ParseError::plain(message, span));
    }

    /// Puts the expression of a closed form in place.
    fn put_form(&mut self, node: Arc<SurfaceNode>)
        ensures
            final(self).deep_view() == put_closed(old(self).deep_view(), node.deep_view()),
    {
        self.node = Some(node.span.clone());
        match push_value(&mut self.stack, &mut self.items, node) {
            Ok(_) => {},
            Err(e) => {
                self.record_close_error(e);
            },
        }
    }

    /// Puts a declaration in place.
    fn put_declaration(&mut self, decl: SurfaceDeclaration, span: Span)
        ensures
            final(self).deep_view() == put_decl(
                old(self).deep_view(),
                decl_view(decl),
                span.deep_view(),
            ),
    {
        broadcast use crate::model::group_models;

        if self.stack.len() == 0 {
            self.node = Some(span.clone());
            self.items.push(SurfaceItem::Decl(Spanned { node: decl, span }));
        } else {
            self.put_form(mk(SurfaceExpression::Decl(Box::new(decl)), span));
        }
    }

    fn finish_entries(&mut self, entries: Vec<Spanned<SurfaceEntry>>, span_start: &Span, span: &Span)
        ensures
            final(self).deep_view() == close_entries(
                old(self).deep_view(),
                entries.deep_view(),
                span_start.deep_view(),
                span.deep_view(),
            ),
    {
        broadcast use crate::model::group_models;

        let whole: Span = Span::between(span_start, span, &span.file);
        let alone: Option<Arc<SurfaceNode>> = if entries.len() == 1 {
            assert(entries.deep_view()[0] == entries@[0].deep_view());
            if entries[0].node.key.is_none() {
                match &entries[0].node.value.expr {
                    SurfaceExpression::TypeAssert { .. } => Some(
                        Arc::clone(&entries[0].node.value),
                    ),
                    SurfaceExpression::Pipe { .. } => Some(Arc::clone(&entries[0].node.value)),
                    _ => None,
                }
            } else {
                None
            }
        } else {
            None
        };
        match alone {
            Some(node) => self.put_form(node),
            None => self.put_form(mk(SurfaceExpression::Dict(entries), whole)),
        }
    }

    fn finish_dict(
        &mut self,
        entries: Vec<Spanned<SurfaceEntry>>,
        pending_key: Option<Arc<SurfaceNode>>,
        floating: Option<Spanned<Annotation>>,
        span_start: &Span,
        span: &Span,
    )
        ensures
            final(self).deep_view() == close_dict(
                old(self).deep_view(),
                entries.deep_view(),
                pending_key.deep_view(),
                floating.deep_view(),
                span_start.deep_view(),
                span.deep_view(),
            ),
    {
        broadcast use crate::model::group_models;

        match pending_key {
            Some(key) => {
                self.reject_close("key without value: expected `:` and value", &key.span);
                return;
            },
            None => {},
        }
        match floating {
            Some(ann) => {
                if entries.len() == 0 {
                    self.reject_close(
                        "type-assert form [@Annotation expr] requires an expression",
                        span,
                    );
                    return;
                }
                assert(entries.deep_view()[0] == entries@[0].deep_view());
                if entries.len() == 1 && entries[0].node.key.is_none() {
                    let value: Arc<SurfaceNode> = Arc::clone(&entries[0].node.value);
                    let whole: Span = Span::between(&ann.span, &value.span, &value.span.file);
                    self.put_form(
                        mk(SurfaceExpression::TypeAssert { annotation: ann, expr: value }, whole),
                    );
                } else {
                    self.finish_entries(respan_entries(entries), span_start, span);
                }
            },
            None => {
                self.finish_entries(respan_entries(entries), span_start, span);
            },
        }
    }

    fn finish_call(
        &mut self,
        func: Option<Arc<SurfaceNode>>,
        implied: bool,
        args: Vec<CallArg>,
        pending_key: Option<(String, Span, Option<Spanned<Annotation>>)>,
        span_start: &Span,
        span: &Span,
    )
        ensures
            final(self).deep_view() == close_call(
                old(self).deep_view(),
                func.deep_view(),
                implied,
                args.deep_view(),
                pending_key.deep_view(),
                span_start.deep_view(),
                span.deep_view(),
            ),
    {
        broadcast use crate::model::group_models;

        let ghost all = args.deep_view();
        let ghost set_func = func.deep_view();
        match pending_key {
            Some((key, key_span, _)) => {
                let message: String = join3("named argument `", key.as_str(), "` without value");
                self.reject_close(message.as_str(), &key_span);
                return;
            },
            None => {},
        }
        let has_func: bool = func.is_some();
        let callee: Arc<SurfaceNode> = match func {
            Some(f) => f,
            None => {
                if args.len() == 0 {
                    self.reject_close("call form requires at least a function expression", span);
                    return;
                }
                assert(all[0] == args@[0].deep_view());
                match &args[0] {
                    CallArg::Positional(f) => Arc::clone(f),
                    CallArg::Named(name, _, _) => {
                        let message: String = join3(
                            "call function cannot be a named argument (got `",
                            name.as_str(),
                            ":`)",
                        );
                        self.reject_close(message.as_str(), span);
                        return;
                    },
                }
            },
        };
        let from: usize = if has_func || args.len() == 0 {
            0
        } else {
            1
        };
        assert(all.skip(from as int) =~= call_rest(set_func, all));
        let (plain, named) = split_args(&args, from);
        let whole: Span = Span::between(span_start, span, &span.file);
        self.put_form(
            mk(
                SurfaceExpression::Call {
                    func: callee,
                    args: plain,
                    named_args: named,
                    implied,
                    pipe_span: None,
                },
                whole,
            ),
        );
    }

    fn finish_fn(
        &mut self,
        params: Vec<Spanned<SurfaceParam>>,
        body: Vec<Arc<SurfaceNode>>,
        return_ann: Option<Spanned<Annotation>>,
        span_start: &Span,
        span: &Span,
    )
        ensures
            final(self).deep_view() == close_fn(
                old(self).deep_view(),
                params.deep_view(),
                body.deep_view(),
                return_ann.deep_view(),
                span_start.deep_view(),
                span.deep_view(),
            ),
    {
        broadcast use crate::model::group_models;

        if body.len() == 0 {
            self.record_close_error(
                ParseError::helped(
                    "fn form requires a body expression",
                    span,
                    "a fn must have at least one body expression: [fn [let x] body]",
                ),
            );
            return;
        }
        let whole: Span = Span::between(span_start, span, &span.file);
        let ghost exprs = body.deep_view();
        let body_node: Arc<SurfaceNode> = if body.len() == 1 {
            assert(exprs[0] == body@[0].deep_view());
            Arc::clone(&body[0])
        } else {
            mk(SurfaceExpression::Sequential(body), whole.clone())
        };
        assert(body_node.deep_view() == fn_body(exprs, whole.deep_view()));
        self.put_form(
            mk(
                SurfaceExpression::Fn { return_ann, params, body: body_node, desugared: false },
                whole,
            ),
        );
    }

    fn finish_type(
        &mut self,
        params: Vec<(String, Option<Spanned<Annotation>>)>,
        type_exprs: Vec<Spanned<SurfaceEntry>>,
        pending_key: Option<Arc<SurfaceNode>>,
        span_start: &Span,
        span: &Span,
    )
        ensures
            final(self).deep_view() == close_type(
                old(self).deep_view(),
                params.deep_view(),
                type_exprs.deep_view(),
                pending_key.deep_view(),
                span_start.deep_view(),
                span.deep_view(),
            ),
    {
        broadcast use crate::model::group_models;

        match pending_key {
            Some(key) => {
                let name: String = match &key.expr {
                    SurfaceExpression::VarRef { name, .. } => name.clone(),
                    _ => "Constructor".to_owned(),
                };
                let mut message: String = join3(
                    "constructor `",
                    name.as_str(),
                    ":` requires a payload value (e.g. `",
                );
                message.append(name.as_str());
                message.append(": [field: Type]`)");
                self.reject_close(message.as_str(), span);
                return;
            },
            None => {},
        }
        if type_exprs.len() == 0 {
            self.reject_close("type-alias form requires at least one type expression", span);
            return;
        }
        let whole: Span = Span::between(span_start, span, &span.file);
        assert(type_exprs.deep_view()[0] == type_exprs@[0].deep_view());
        let body: Arc<SurfaceNode> = if type_exprs.len() == 1 && type_exprs[0].node.key.is_none() {
            Arc::clone(&type_exprs[0].node.value)
        } else {
            mk(SurfaceExpression::Dict(type_exprs), whole.clone())
        };
        self.put_declaration(SurfaceDeclaration::TypeAlias { params, body }, whole);
    }

    fn finish_one(&mut self, node: Option<Arc<SurfaceNode>>, message: &str, span: &Span)
        ensures
            final(self).deep_view() == close_one(
                old(self).deep_view(),
                node.deep_view(),
                message@,
                span.deep_view(),
            ),
    {
        match node {
            Some(n) => self.put_form(n),
            None => self.reject_close(message, span),
        }
    }

    fn finish_syntax(
        &mut self,
        name: Option<String>,
        pattern: Option<Arc<SurfaceNode>>,
        message: Option<String>,
        pending_key: Option<Arc<SurfaceNode>>,
        span_start: &Span,
        span: &Span,
    )
        ensures
            final(self).deep_view() == close_syntax(
                old(self).deep_view(),
                name.deep_view(),
                pattern.deep_view(),
                message.deep_view(),
                pending_key.deep_view(),
                span_start.deep_view(),
                span.deep_view(),
            ),
    {
        if pending_key.is_some() {
            self.reject_close("syntax-class: key without value", span);
            return;
        }
        match name {
            None => self.reject_close("syntax-class form requires a name", span),
            Some(name) => match pattern {
                None => self.reject_close("syntax-class form requires a 'pattern:' field", span),
                Some(pattern) => {
                    let whole: Span = Span::between(span_start, span, &span.file);
                    self.put_declaration(
                        SurfaceDeclaration::SyntaxClass { name, pattern, message },
                        whole,
                    );
                },
            },
        }
    }

    fn finish_match(
        &mut self,
        scrutinee: Option<Arc<SurfaceNode>>,
        arms: Vec<SurfaceMatchArm>,
        pending_pattern_expr: Option<Arc<SurfaceNode>>,
        pending_pattern: Option<(Arc<SurfaceNode>, Option<Arc<SurfaceNode>>)>,
        span_start: &Span,
        span: &Span,
    )
        ensures
            final(self).deep_view() == close_match(
                old(self).deep_view(),
                scrutinee.deep_view(),
                arms.deep_view(),
                pending_pattern_expr.deep_view(),
                pending_pattern.deep_view(),
                span_start.deep_view(),
                span.deep_view(),
            ),
    {
        broadcast use crate::model::group_models;

        match scrutinee {
            None => self.reject_close("match form requires a scrutinee expression", span),
            Some(scrutinee) => {
                let mut all: Vec<SurfaceMatchArm> = arms;
                if pending_pattern_expr.is_some() && all.len() == 0 {
                    self.reject_close(
                        "match form has an expression with no arm to belong to",
                        span,
                    );
                } else if pending_pattern_expr.is_none() && pending_pattern.is_some() {
                    self.reject_close("match pattern must be followed by a body expression", span);
                } else if all.len() == 0 {
                    self.reject_close("match form requires at least one pattern: body pair", span);
                } else {
                    match pending_pattern_expr {
                        Some(node) => extend_arms(&mut all, node),
                        None => {},
                    }
                    let whole: Span = Span::between(span_start, span, &span.file);
                    self.put_form(mk(SurfaceExpression::Match { scrutinee, arms: all }, whole));
                }
            },
        }
    }

    fn finish_class(
        &mut self,
        name: Option<String>,
        params: Vec<String>,
        methods: Vec<Spanned<SurfaceEntry>>,
        pending_key: Option<Arc<SurfaceNode>>,
        structural_metadata: Option<Arc<SurfaceNode>>,
        span_start: &Span,
        span: &Span,
    )
        ensures
            final(self).deep_view() == close_class(
                old(self).deep_view(),
                name.deep_view(),
                params.deep_view(),
                methods.deep_view(),
                pending_key.deep_view(),
                structural_metadata.deep_view(),
                span_start.deep_view(),
                span.deep_view(),
            ),
    {
        broadcast use crate::model::group_models;

        if pending_key.is_some() {
            self.reject_close("class form has incomplete method (key without value)", span);
            return;
        }
        let m: Metadata = read_metadata(&structural_metadata);
        let whole: Span = Span::between(span_start, span, &span.file);
        let class_name: String = match name {
            Some(n) => n,
            None => String::new(),
        };
        let decl: SurfaceDeclaration = SurfaceDeclaration::ClassDecl {
            name: class_name,
            params,
            superclasses: m.superclasses,
            methods: respan_entries(methods),
            determines: m.determines,
            resolver: m.resolver,
            resolver_injective: m.injective,
            structural: m.structural,
        };
        self.put_declaration(decl, whole);
    }

    fn finish_instance(
        &mut self,
        class_name: Option<Arc<SurfaceNode>>,
        arms: Vec<(Arc<SurfaceNode>, Vec<Spanned<SurfaceEntry>>)>,
        pending_arm_pattern: Option<Arc<SurfaceNode>>,
        pending_key: Option<Arc<SurfaceNode>>,
        current_arm_methods: Vec<Spanned<SurfaceEntry>>,
        span_start: &Span,
        span: &Span,
    )
        ensures
            final(self).deep_view() == close_instance(
                old(self).deep_view(),
                class_name.deep_view(),
                arms.deep_view(),
                pending_arm_pattern.deep_view(),
                pending_key.deep_view(),
                current_arm_methods.deep_view(),
                span_start.deep_view(),
                span.deep_view(),
            ),
    {
        broadcast use crate::model::group_models;

        if pending_key.is_some() {
            self.reject_close("instance form has incomplete method (key without value)", span);
            return;
        }
        if pending_arm_pattern.is_some() {
            self.reject_close("instance form has incomplete arm (pattern without methods)", span);
            return;
        }
        match class_name {
            None => self.reject_close("instance form requires a class name", span),
            Some(class_name) => {
                if current_arm_methods.len() > 0 && arms.len() == 0 {
                    self.reject_close("instance form has orphaned methods without pattern", span);
                    return;
                }
                let mut all: Vec<(Arc<SurfaceNode>, Vec<Spanned<SurfaceEntry>>)> = arms;
                add_methods(&mut all, current_arm_methods);
                let whole: Span = Span::between(span_start, span, &span.file);
                let decl: SurfaceDeclaration = SurfaceDeclaration::InstanceDecl {
                    class_name,
                    arms: respan_all(all),
                };
                self.put_declaration(decl, whole);
            },
        }
    }

    fn finish_pattern(&mut self, bindings: Vec<Arc<SurfaceNode>>, span_start: &Span, span: &Span)
        ensures
            final(self).deep_view() == close_pattern(
                old(self).deep_view(),
                bindings.deep_view(),
                span_start.deep_view(),
                span.deep_view(),
            ),
    {
        broadcast use crate::model::group_models;

        let whole: Span = Span::between(span_start, span, &span.file);
        self.put_form(mk(SurfaceExpression::PatternDecl { bindings }, whole));
    }

    fn finish_let(
        &mut self,
        bindings: Vec<Arc<SurfaceNode>>,
        pending_key: Option<Arc<SurfaceNode>>,
        pending_rhs: Option<Arc<SurfaceNode>>,
        span_start: &Span,
        span: &Span,
    )
        ensures
            final(self).deep_view() == close_let(
                old(self).deep_view(),
                bindings.deep_view(),
                pending_key.deep_view(),
                pending_rhs.deep_view(),
                span_start.deep_view(),
                span.deep_view(),
            ),
    {
        broadcast use crate::model::group_models;

        let mut all: Vec<Arc<SurfaceNode>> = bindings;
        match (pending_key, pending_rhs) {
            (Some(key), Some(rhs)) => {
                match commit_let_pending(&key, rhs, &mut all) {
                    Ok(_) => {},
                    Err(e) => {
                        self.record_close_error(e);
                        return;
                    },
                }
            },
            _ => {},
        }
        let whole: Span = Span::between(span_start, span, &span.file);
        self.put_form(mk(SurfaceExpression::LetDecl { bindings: all }, whole));
    }

    fn has_waiting_pattern(&self) -> (b: bool)
        ensures
            b == pattern_waits(self.deep_view().stack),
    {
        let n: usize = self.stack.len();
        if n == 0 {
            return false;
        }
        assert(self.stack.deep_view().last() == self.stack@.last().deep_view());
        match &self.stack[n - 1] {
            StackFrame::Match { pending_pattern_expr, pending_pattern, .. } => {
                pending_pattern_expr.is_some() || pending_pattern.is_some()
            },
            _ => false,
        }
    }

    fn finish_case(
        &mut self,
        let_bindings: Option<Arc<SurfaceNode>>,
        pattern: Option<Arc<SurfaceNode>>,
        body: Vec<Arc<SurfaceNode>>,
        span_start: &Span,
        span: &Span,
    )
        ensures
            final(self).deep_view() == close_case(
                old(self).deep_view(),
                let_bindings.deep_view(),
                pattern.deep_view(),
                body.deep_view(),
                span_start.deep_view(),
                span.deep_view(),
            ),
    {
        broadcast use crate::model::group_models;

        let whole: Span = Span::between(span_start, span, &span.file);
        match (let_bindings, pattern) {
            (Some(bindings), Some(pattern)) => {
                if body.len() == 0 {
                    self.reject_close("case arm requires [let bindings] pattern body", &whole);
                    return;
                }
                if self.has_waiting_pattern() {
                    self.reject_close(
                        "[case ...] cannot appear when a pattern is pending — complete the prior arm first",
                        &whole,
                    );
                    return;
                }
                let ghost checked = self.deep_view();
                let ghost frames = self.stack.deep_view();
                match self.stack.pop() {
                    None => {
                        self.reject_close("[case ...] must appear inside [match ...]", &whole);
                    },
                    Some(frame) => {
                        assert(frames.last() == frame.deep_view());
                        assert(frames.drop_last().push(frames.last()) =~= frames);
                        match frame {
                            StackFrame::Match {
                                scrutinee,
                                mut arms,
                                pending_pattern_expr,
                                pending_pattern,
                                span_start,
                            } => {
                                arms.push(
                                    SurfaceMatchArm {
                                        pattern,
                                        let_bindings: Some(bindings),
                                        guard: None,
                                        body,
                                    },
                                );
                                self.stack.push(
                                    StackFrame::Match {
                                        scrutinee,
                                        arms,
                                        pending_pattern_expr,
                                        pending_pattern,
                                        span_start,
                                    },
                                );
                            },
                            other => {
                                self.stack.push(other);
                                assert(self.deep_view() == checked);
                                self.reject_close(
                                    "[case ...] must appear inside [match ...]",
                                    &whole,
                                );
                            },
                        }
                    },
                }
            },
            _ => self.reject_close("case arm requires [let bindings] pattern body", &whole),
        }
    }

    fn finish_form(&mut self, frame: StackFrame, span: &Span)
        requires
            !(frame is AnnotationCollect),
        ensures
            final(self).deep_view() == closed(
                old(self).deep_view(),
                frame.deep_view(),
                span.deep_view(),
            ),
    {
        match frame {
            StackFrame::Dict { entries, pending_key, span_start, floating_annotation, .. } => {
                self.finish_dict(entries, pending_key, floating_annotation, &span_start, span);
            },
            StackFrame::Call { func, implied, args, pending_key, span_start } => {
                self.finish_call(func, implied, args, pending_key, &span_start, span);
            },
            StackFrame::Fn { params, body, return_ann, span_start, .. } => {
                self.finish_fn(params, body, return_ann, &span_start, span);
            },
            StackFrame::TypeAlias { params, type_exprs, pending_key, span_start } => {
                self.finish_type(params, type_exprs, pending_key, &span_start, span);
            },
            StackFrame::Quote { expr, span_start } => {
                let whole: Span = Span::between(&span_start, span, &span.file);
                let node: Option<Arc<SurfaceNode>> = match expr {
                    Some(n) => Some(mk(SurfaceExpression::Quote(n), whole)),
                    None => None,
                };
                self.finish_one(node, "quote form requires an expression", span);
            },
            StackFrame::Unquote { expr, span_start } => {
                let whole: Span = Span::between(&span_start, span, &span.file);
                let node: Option<Arc<SurfaceNode>> = match expr {
                    Some(n) => Some(mk(SurfaceExpression::Unquote(n), whole)),
                    None => None,
                };
                self.finish_one(node, "unquote form requires an expression", span);
            },
            StackFrame::UnquoteSplice { expr, span_start } => {
                let whole: Span = Span::between(&span_start, span, &span.file);
                let node: Option<Arc<SurfaceNode>> = match expr {
                    Some(n) => Some(mk(SurfaceExpression::UnquoteSplice(n), whole)),
                    None => None,
                };
                self.finish_one(node, "unquote-splice form requires an expression", span);
            },
            StackFrame::SyntaxClass { name, pattern, message, pending_key, span_start } => {
                self.finish_syntax(name, pattern, message, pending_key, &span_start, span);
            },
            StackFrame::Match {
                scrutinee,
                arms,
                pending_pattern_expr,
                pending_pattern,
                span_start,
            } => {
                self.finish_match(
                    scrutinee,
                    arms,
                    pending_pattern_expr,
                    pending_pattern,
                    &span_start,
                    span,
                );
            },
            StackFrame::ClassDecl {
                name,
                params,
                methods,
                pending_key,
                structural_metadata,
                span_start,
            } => {
                self.finish_class(
                    name,
                    params,
                    methods,
                    pending_key,
                    structural_metadata,
                    &span_start,
                    span,
                );
            },
            StackFrame::InstanceDecl {
                class_name,
                arms,
                pending_arm_pattern,
                pending_key,
                current_arm_methods,
                span_start,
            } => {
                self.finish_instance(
                    class_name,
                    arms,
                    pending_arm_pattern,
                    pending_key,
                    current_arm_methods,
                    &span_start,
                    span,
                );
            },
            StackFrame::PatternDecl { bindings, span_start } => {
                self.finish_pattern(bindings, &span_start, span);
            },
            StackFrame::LetDecl { bindings, pending_key, pending_rhs, span_start } => {
                self.finish_let(bindings, pending_key, pending_rhs, &span_start, span);
            },
            StackFrame::CaseDecl { let_bindings, pattern, body, span_start } => {
                self.finish_case(let_bindings, pattern, body, &span_start, span);
            },
            StackFrame::Pipe { .. } => {
                self.reject_close("pipe operator '|' requires a right-hand expression", span);
            },
            StackFrame::AnnotationCollect { .. } => {},
        }
    }

    /// Handles the closing bracket at place `i`.
    pub fn close_bracket(&mut self, tokens: &Vec<Spanned<Token>>, i: usize) -> (r: Result<
        usize,
        TypeDiagnostic,
    >)
        requires
            i < tokens@.len(),
        ensures
            same_step(
                r,
                final(self).deep_view(),
                close_step(old(self).deep_view(), tokens.deep_view(), i as int),
            ),
            r matches Ok(next) ==> i < next <= tokens@.len(),
    {
        broadcast use crate::model::group_models;

        reveal(close_step);
        assert(tokens.deep_view()[i as int] == tokens@[i as int].deep_view());
        let span: Span = tokens[i].span.clone();
        let ghost frames = self.stack.deep_view();
        match self.stack.pop() {
            None => Err(
                TypeDiagnostic::error("parse-error", "unmatched closing bracket".to_owned(), span),
            ),
            Some(frame) => {
                assert(frames.last() == frame.deep_view());
                let pending: bool = matches!(&frame, StackFrame::AnnotationCollect { .. });
                if pending {
                    return Err(
                        TypeDiagnostic::error(
                            "parse-error",
                            "annotation @ requires an expression before `]`".to_owned(),
                            span,
                        ),
                    );
                }
                self.popped = Some((frame.form(), frame.opened().clone()));
                self.finish_form(frame, &span);
                self.close_off(&span, tokens, i)
            },
        }
    }
}

/// Adds methods to the last arm, where there is one.
pub fn add_methods(
    arms: &mut Vec<(Arc<SurfaceNode>, Vec<Spanned<SurfaceEntry>>)>,
    methods: Vec<Spanned<SurfaceEntry>>,
)
    ensures
        final(arms).deep_view() == with_methods(old(arms).deep_view(), methods.deep_view()),
{
    broadcast use crate::model::group_models;

    let ghost all = arms.deep_view();
    if methods.len() == 0 {
        return;
    }
    match arms.pop() {
        None => {},
        Some(last) => {
            assert(all.last() == last.deep_view());
            let mut added: Vec<Spanned<SurfaceEntry>> = methods;
            let mut entries: Vec<Spanned<SurfaceEntry>> = last.1;
            entries.append(&mut added);
            arms.push((last.0, entries));
        },
    }
}

} // verus!
