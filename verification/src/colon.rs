//! The colon: what stands before it becomes a key.
use crate::ast::{
    clone_annot, Annotation, Span, Spanned, SurfaceEntry, SurfaceExpression, SurfaceNode,
};
use crate::close::{add_methods, with_methods};
use crate::diagnostic::{parse_diag, TypeDiagnostic};
use crate::frame::{
    form_name, opened_at, plain_err, CallArg, CallArgV, ErrV, FrameV, ParseError, StackFrame,
};
use crate::lexer::{TokV, Token};
use crate::model::{AnnotV, ExprV, NodeV, SpanV, Text};
use crate::state::{recovered, same_step, Parser, StateV, StepV};
use crate::text::{decimal, decimal_text, name_starts_upper, starts_upper};
use std::sync::Arc;
use vstd::prelude::*;

verus! {

/// The key that a value without a key becomes before a colon: a dict that holds nothing but one
/// such value stands for that value.
pub open spec fn promoted_key(value: NodeV) -> NodeV {
    match value.expr {
        ExprV::Dict(inner) => if inner.len() == 1 && inner[0].key is None {
            inner[0].value
        } else {
            value
        },
        _ => value,
    }
}

/// The name and the annotation of a bare word that has an annotation.
pub open spec fn annotated_name(n: NodeV) -> Option<(Text, AnnotV)> {
    match n.expr {
        ExprV::VarRef { name, escaped: false, annotation: Some(ann) } => Some((name, *ann)),
        _ => None,
    }
}

/// The arguments of a call whose last one becomes a name with an annotation before a colon.
pub open spec fn ends_in_name(args: Seq<CallArgV>) -> bool {
    args.len() > 0 && (args.last() matches CallArgV::Positional(n) && annotated_name(n) is Some)
}

/// A form whose entries cannot have a colon here.
pub open spec fn misplaced_colon(f: FrameV, span: SpanV) -> ErrV {
    plain_err(
        "`:` is not valid inside a "@ + form_name(f) + " form (opened at "@ + decimal(
            opened_at(f).start_line as nat,
        ) + ":"@ + decimal(opened_at(f).start_col as nat) + ")"@,
        span,
    )
}

/// A form after a colon, and the error where the colon has no place in it.
pub open spec fn coloned(f: FrameV, span: SpanV) -> (FrameV, Option<ErrV>) {
    match f {
        FrameV::Dict { entries, pending_key, seen_keys, span_start, floating_annotation } =>
        if pending_key is Some {
            (f, None)
        } else if entries.len() > 0 && entries.last().key is None {
            (
                FrameV::Dict {
                    entries: entries.drop_last(),
                    pending_key: Some(promoted_key(entries.last().value)),
                    seen_keys,
                    span_start,
                    floating_annotation,
                },
                None,
            )
        } else {
            (f, Some(plain_err("`:` without a key (expected key before `:`)"@, span)))
        },
        FrameV::Call { func, implied, args, pending_key, span_start } => if pending_key is Some {
            (f, None)
        } else if ends_in_name(args) {
            let node = args.last()->Positional_0;
            let (name, ann) = annotated_name(node)->0;
            (
                FrameV::Call {
                    func,
                    implied,
                    args: args.drop_last(),
                    pending_key: Some((name, node.span, Some(ann))),
                    span_start,
                },
                None,
            )
        } else {
            (
                f,
                Some(
                    plain_err(
                        "`:` without a name (expected bare word before `:` for named arg)"@,
                        span,
                    ),
                ),
            )
        },
        FrameV::ClassDecl { pending_key, .. } => (
            f,
            if pending_key is Some {
                None
            } else {
                Some(plain_err("`:` without a method name (expected method: Type)"@, span))
            },
        ),
        FrameV::InstanceDecl {
            class_name,
            arms,
            pending_arm_pattern,
            pending_key,
            current_arm_methods,
            span_start,
        } => match pending_arm_pattern {
            Some(pattern) => (
                FrameV::InstanceDecl {
                    class_name,
                    arms: with_methods(arms, current_arm_methods).push((pattern, Seq::empty())),
                    pending_arm_pattern: None,
                    pending_key,
                    current_arm_methods: if arms.len() > 0 {
                        Seq::empty()
                    } else {
                        current_arm_methods
                    },
                    span_start,
                },
                None,
            ),
            None => (
                f,
                if pending_key is Some {
                    None
                } else {
                    Some(
                        plain_err(
                            "`:` without a method name or pattern (expected method: impl or [pattern ...]: methods)"@,
                            span,
                        ),
                    )
                },
            ),
        },
        FrameV::Match { scrutinee, arms, pending_pattern_expr, pending_pattern, span_start } =>
        match pending_pattern_expr {
            Some(pattern) => (
                FrameV::Match {
                    scrutinee,
                    arms,
                    pending_pattern_expr: None,
                    pending_pattern: Some((pattern, None)),
                    span_start,
                },
                None,
            ),
            None => (
                f,
                Some(plain_err("`:` without a pattern (expected pattern: body in match)"@, span)),
            ),
        },
        FrameV::SyntaxClass { pending_key, .. } => (
            f,
            if pending_key is Some {
                None
            } else {
                Some(
                    plain_err(
                        "`:` without a key (expected 'pattern' or 'message' before `:`)"@,
                        span,
                    ),
                )
            },
        ),
        FrameV::LetDecl { bindings, pending_key, pending_rhs, span_start } => if bindings.len()
            == 0 {
            (f, Some(plain_err("`:` without a left-hand side in [let ...] form"@, span)))
        } else if bindings.last().expr is VarRef || bindings.last().expr is LetDecl {
            (
                FrameV::LetDecl {
                    bindings: bindings.drop_last(),
                    pending_key: Some(bindings.last()),
                    pending_rhs,
                    span_start,
                },
                None,
            )
        } else {
            (
                f,
                Some(
                    plain_err(
                        "`:` in [let ...] must follow a bare identifier or a binding group `[a b]`"@,
                        span,
                    ),
                ),
            )
        },
        FrameV::TypeAlias { params, type_exprs, pending_key, span_start } => if pending_key is Some {
            (
                f,
                Some(
                    plain_err(
                        "`:` without a value (expected constructor payload after `Name:`)"@,
                        span,
                    ),
                ),
            )
        } else if type_exprs.len() == 0 || type_exprs.last().key is Some {
            (f, Some(plain_err("`:` without a constructor name in [type ...] form"@, span)))
        } else if names_constructor(type_exprs.last().value) {
            (
                FrameV::TypeAlias {
                    params,
                    type_exprs: type_exprs.drop_last(),
                    pending_key: Some(type_exprs.last().value),
                    span_start,
                },
                None,
            )
        } else {
            (
                f,
                Some(
                    plain_err(
                        "`:` in [type ...] must follow an uppercase constructor name (e.g. `File: [path: String]`)"@,
                        span,
                    ),
                ),
            )
        },
        _ => (f, Some(misplaced_colon(f, span))),
    }
}

/// Whether an expression is a name that starts with a capital.
pub open spec fn names_constructor(node: NodeV) -> bool {
    match node.expr {
        ExprV::VarRef { name, .. } => starts_upper(name),
        _ => false,
    }
}

/// What the colon at place `i` leads to.
#[verifier::opaque]
pub open spec fn colon_step(s: StateV, tokens: Seq<TokV>, i: int) -> StepV {
    let span = tokens[i].span;
    if s.stack.len() == 0 {
        StepV::Fatal(
            parse_diag("`:` at document top level (no enclosing bracket form)"@, span),
        )
    } else {
        let (f, error) = coloned(s.stack.last(), span);
        let after = StateV { stack: s.stack.drop_last().push(f), ..s };
        match error {
            Some(e) => recovered(after, e.message, span, tokens, i + 1),
            None => StepV::Next(after, i + 1),
        }
    }
}

fn promote(value: &Arc<SurfaceNode>) -> (r: Arc<SurfaceNode>)
    ensures
        r.deep_view() == promoted_key(value.deep_view()),
{
    broadcast use crate::model::group_models;

    match &value.expr {
        SurfaceExpression::Dict(inner) => {
            if inner.len() == 1 {
                assert(inner.deep_view()[0] == inner@[0].deep_view());
                if inner[0].node.key.is_none() {
                    return Arc::clone(&inner[0].node.value);
                }
            }
            Arc::clone(value)
        },
        _ => Arc::clone(value),
    }
}

fn is_constructor_name(node: &Arc<SurfaceNode>) -> (b: bool)
    ensures
        b == names_constructor(node.deep_view()),
{
    match &node.expr {
        SurfaceExpression::VarRef { name, .. } => name_starts_upper(name),
        _ => false,
    }
}

fn misplaced(frame: &StackFrame, span: &Span) -> (r: ParseError)
    ensures
        r.deep_view() == misplaced_colon(frame.deep_view(), span.deep_view()),
{
    let mut message: String = "`:` is not valid inside a ".to_owned();
    message.append(frame.form());
    message.append(" form (opened at ");
    message.append(decimal_text(frame.opened().start_line as u64).as_str());
    message.append(":");
    message.append(decimal_text(frame.opened().start_col as u64).as_str());
    message.append(")");
    ParseError { message, span: span.clone(), help: None }
}

fn require_key(pending: bool, message: &str, span: &Span) -> (r: Option<ParseError>)
    ensures
        r.deep_view() == if pending {
            None
        } else {
            Some(plain_err(message@, span.deep_view()))
        },
{
    if pending {
        None
    } else {
        Some(ParseError::plain(message, span))
    }
}

fn colon_in_dict(frame: StackFrame, span: &Span) -> (r: (StackFrame, Option<ParseError>))
    requires
        frame is Dict,
    ensures
        (r.0.deep_view(), r.1.deep_view()) == coloned(frame.deep_view(), span.deep_view()),
{
    broadcast use crate::model::group_models;

    match frame {
        StackFrame::Dict {
            mut entries,
            pending_key,
            seen_keys,
            span_start,
            floating_annotation,
        } => {
            let ghost all = entries.deep_view();
            if pending_key.is_some() {
                return (
                    StackFrame::Dict {
                        entries,
                        pending_key,
                        seen_keys,
                        span_start,
                        floating_annotation,
                    },
                    None,
                );
            }
            match entries.pop() {
                Some(last) => {
                    assert(all.last() == last.deep_view());
                    if last.node.key.is_none() {
                        let key: Arc<SurfaceNode> = promote(&last.node.value);
                        return (
                            StackFrame::Dict {
                                entries,
                                pending_key: Some(key),
                                seen_keys,
                                span_start,
                                floating_annotation,
                            },
                            None,
                        );
                    }
                    entries.push(last);
                    assert(entries.deep_view() =~= all);
                },
                None => {},
            }
            (
                StackFrame::Dict {
                    entries,
                    pending_key,
                    seen_keys,
                    span_start,
                    floating_annotation,
                },
                Some(ParseError::plain("`:` without a key (expected key before `:`)", span)),
            )
        },
        other => (other, None),
    }
}

fn take_annotated_name(node: &Arc<SurfaceNode>) -> (r: Option<(String, Spanned<Annotation>)>)
    ensures
        r.deep_view() == annotated_name(node.deep_view()),
{
    broadcast use crate::model::group_models;

    match &node.expr {
        SurfaceExpression::VarRef { name, escaped, annotation } => {
            if *escaped {
                return None;
            }
            match annotation {
                Some(a) => Some((name.clone(), clone_annot(a))),
                None => None,
            }
        },
        _ => None,
    }
}

fn colon_in_call(frame: StackFrame, span: &Span) -> (r: (StackFrame, Option<ParseError>))
    requires
        frame is Call,
    ensures
        (r.0.deep_view(), r.1.deep_view()) == coloned(frame.deep_view(), span.deep_view()),
{
    broadcast use crate::model::group_models;

    match frame {
        StackFrame::Call { func, implied, mut args, pending_key, span_start } => {
            let ghost all = args.deep_view();
            if pending_key.is_some() {
                return (StackFrame::Call { func, implied, args, pending_key, span_start }, None);
            }
            match args.pop() {
                Some(last) => {
                    assert(all.last() == last.deep_view());
                    match &last {
                        CallArg::Positional(node) => match take_annotated_name(node) {
                            Some((name, ann)) => {
                                let key: Option<(String, Span, Option<Spanned<Annotation>>)> =
                                    Some((name, node.span.clone(), Some(ann)));
                                return (
                                    StackFrame::Call {
                                        func,
                                        implied,
                                        args,
                                        pending_key: key,
                                        span_start,
                                    },
                                    None,
                                );
                            },
                            None => {},
                        },
                        CallArg::Named(_, _, _) => {},
                    }
                    args.push(last);
                    assert(args.deep_view() =~= all);
                },
                None => {},
            }
            (
                StackFrame::Call { func, implied, args, pending_key, span_start },
                Some(
                    ParseError::plain(
                        "`:` without a name (expected bare word before `:` for named arg)",
                        span,
                    ),
                ),
            )
        },
        other => (other, None),
    }
}

fn colon_in_instance(frame: StackFrame, span: &Span) -> (r: (StackFrame, Option<ParseError>))
    requires
        frame is InstanceDecl,
    ensures
        (r.0.deep_view(), r.1.deep_view()) == coloned(frame.deep_view(), span.deep_view()),
{
    broadcast use crate::model::group_models;

    match frame {
        StackFrame::InstanceDecl {
            class_name,
            mut arms,
            pending_arm_pattern,
            pending_key,
            current_arm_methods,
            span_start,
        } => match pending_arm_pattern {
            Some(pattern) => {
                let methods: Vec<Spanned<SurfaceEntry>> = if arms.len() > 0 {
                    add_methods(&mut arms, current_arm_methods);
                    Vec::new()
                } else {
                    current_arm_methods
                };
                arms.push((pattern, Vec::new()));
                (
                    StackFrame::InstanceDecl {
                        class_name,
                        arms,
                        pending_arm_pattern: None,
                        pending_key,
                        current_arm_methods: methods,
                        span_start,
                    },
                    None,
                )
            },
            None => {
                let error: Option<ParseError> = require_key(
                    pending_key.is_some(),
                    "`:` without a method name or pattern (expected method: impl or [pattern ...]: methods)",
                    span,
                );
                (
                    StackFrame::InstanceDecl {
                        class_name,
                        arms,
                        pending_arm_pattern: None,
                        pending_key,
                        current_arm_methods,
                        span_start,
                    },
                    error,
                )
            },
        },
        other => (other, None),
    }
}

fn colon_in_let(frame: StackFrame, span: &Span) -> (r: (StackFrame, Option<ParseError>))
    requires
        frame is LetDecl,
    ensures
        (r.0.deep_view(), r.1.deep_view()) == coloned(frame.deep_view(), span.deep_view()),
{
    broadcast use crate::model::group_models;

    match frame {
        StackFrame::LetDecl { mut bindings, pending_key, pending_rhs, span_start } => {
            let ghost all = bindings.deep_view();
            match bindings.pop() {
                None => (
                    StackFrame::LetDecl { bindings, pending_key, pending_rhs, span_start },
                    Some(
                        ParseError::plain("`:` without a left-hand side in [let ...] form", span),
                    ),
                ),
                Some(last) => {
                    assert(all.last() == last.deep_view());
                    let names: bool = match &last.expr {
                        SurfaceExpression::VarRef { .. } => true,
                        SurfaceExpression::LetDecl { .. } => true,
                        _ => false,
                    };
                    if names {
                        (
                            StackFrame::LetDecl {
                                bindings,
                                pending_key: Some(last),
                                pending_rhs,
                                span_start,
                            },
                            None,
                        )
                    } else {
                        bindings.push(last);
                        assert(bindings.deep_view() =~= all);
                        (
                            StackFrame::LetDecl { bindings, pending_key, pending_rhs, span_start },
                            Some(
                                ParseError::plain(
                                    "`:` in [let ...] must follow a bare identifier or a binding group `[a b]`",
                                    span,
                                ),
                            ),
                        )
                    }
                },
            }
        },
        other => (other, None),
    }
}

fn colon_in_type(frame: StackFrame, span: &Span) -> (r: (StackFrame, Option<ParseError>))
    requires
        frame is TypeAlias,
    ensures
        (r.0.deep_view(), r.1.deep_view()) == coloned(frame.deep_view(), span.deep_view()),
{
    broadcast use crate::model::group_models;

    match frame {
        StackFrame::TypeAlias { params, mut type_exprs, pending_key, span_start } => {
            let ghost all = type_exprs.deep_view();
            if pending_key.is_some() {
                return (
                    StackFrame::TypeAlias { params, type_exprs, pending_key, span_start },
                    Some(
                        ParseError::plain(
                            "`:` without a value (expected constructor payload after `Name:`)",
                            span,
                        ),
                    ),
                );
            }
            match type_exprs.pop() {
                None => (
                    StackFrame::TypeAlias { params, type_exprs, pending_key, span_start },
                    Some(
                        ParseError::plain(
                            "`:` without a constructor name in [type ...] form",
                            span,
                        ),
                    ),
                ),
                Some(last) => {
                    assert(all.last() == last.deep_view());
                    let keyed: bool = last.node.key.is_some();
                    if !keyed && is_constructor_name(&last.node.value) {
                        let key: Arc<SurfaceNode> = Arc::clone(&last.node.value);
                        return (
                            StackFrame::TypeAlias {
                                params,
                                type_exprs,
                                pending_key: Some(key),
                                span_start,
                            },
                            None,
                        );
                    }
                    type_exprs.push(last);
                    assert(type_exprs.deep_view() =~= all);
                    let error: ParseError = if keyed {
                        ParseError::plain(
                            "`:` without a constructor name in [type ...] form",
                            span,
                        )
                    } else {
                        ParseError::plain(
                            "`:` in [type ...] must follow an uppercase constructor name (e.g. `File: [path: String]`)",
                            span,
                        )
                    };
                    (
                        StackFrame::TypeAlias { params, type_exprs, pending_key, span_start },
                        Some(error),
                    )
                },
            }
        },
        other => (other, None),
    }
}

fn colon_in_match(frame: StackFrame, span: &Span) -> (r: (StackFrame, Option<ParseError>))
    requires
        frame is Match,
    ensures
        (r.0.deep_view(), r.1.deep_view()) == coloned(frame.deep_view(), span.deep_view()),
{
    broadcast use crate::model::group_models;

    match frame {
        StackFrame::Match {
            scrutinee,
            arms,
            pending_pattern_expr,
            pending_pattern,
            span_start,
        } => match pending_pattern_expr {
            Some(pattern) => (
                StackFrame::Match {
                    scrutinee,
                    arms,
                    pending_pattern_expr: None,
                    pending_pattern: Some((pattern, None)),
                    span_start,
                },
                None,
            ),
            None => (
                StackFrame::Match {
                    scrutinee,
                    arms,
                    pending_pattern_expr: None,
                    pending_pattern,
                    span_start,
                },
                Some(
                    ParseError::plain(
                        "`:` without a pattern (expected pattern: body in match)",
                        span,
                    ),
                ),
            ),
        },
        other => (other, None),
    }
}

/// Whether a keyed form has a key that waits for its value, with the message where it has none.
enum Keyed {
    Waits(bool, &'static str),
    Dict,
    Call,
    Instance,
    Match,
    Let,
    Type,
    Other,
}

fn take_colon(frame: StackFrame, span: &Span) -> (r: (StackFrame, Option<ParseError>))
    ensures
        (r.0.deep_view(), r.1.deep_view()) == coloned(frame.deep_view(), span.deep_view()),
{
    broadcast use crate::model::group_models;

    let kind: Keyed = match &frame {
        StackFrame::Dict { .. } => Keyed::Dict,
        StackFrame::Call { .. } => Keyed::Call,
        StackFrame::ClassDecl { pending_key, .. } => Keyed::Waits(
            pending_key.is_some(),
            "`:` without a method name (expected method: Type)",
        ),
        StackFrame::SyntaxClass { pending_key, .. } => Keyed::Waits(
            pending_key.is_some(),
            "`:` without a key (expected 'pattern' or 'message' before `:`)",
        ),
        StackFrame::InstanceDecl { .. } => Keyed::Instance,
        StackFrame::Match { .. } => Keyed::Match,
        StackFrame::LetDecl { .. } => Keyed::Let,
        StackFrame::TypeAlias { .. } => Keyed::Type,
        _ => Keyed::Other,
    };
    match kind {
        Keyed::Dict => colon_in_dict(frame, span),
        Keyed::Call => colon_in_call(frame, span),
        Keyed::Instance => colon_in_instance(frame, span),
        Keyed::Match => colon_in_match(frame, span),
        Keyed::Let => colon_in_let(frame, span),
        Keyed::Type => colon_in_type(frame, span),
        Keyed::Waits(pending, message) => {
            let error: Option<ParseError> = require_key(pending, message, span);
            (frame, error)
        },
        Keyed::Other => {
            let error: ParseError = misplaced(&frame, span);
            (frame, Some(error))
        },
    }
}

impl Parser {
    /// Handles the colon at place `i`.
    pub fn colon(&mut self, tokens: &Vec<Spanned<Token>>, i: usize) -> (r: Result<
        usize,
        TypeDiagnostic,
    >)
        requires
            i < tokens@.len(),
        ensures
            same_step(
                r,
                final(self).deep_view(),
                colon_step(old(self).deep_view(), tokens.deep_view(), i as int),
            ),
            r matches Ok(next) ==> i < next <= tokens@.len(),
    {
        broadcast use crate::model::group_models;

        reveal(colon_step);
        assert(tokens.deep_view()[i as int] == tokens@[i as int].deep_view());
        let n: usize = tokens.len();
        let span: Span = tokens[i].span.clone();
        let ghost frames = self.stack.deep_view();
        match self.stack.pop() {
            None => Err(
                TypeDiagnostic::error(
                    "parse-error",
                    "`:` at document top level (no enclosing bracket form)".to_owned(),
                    span,
                ),
            ),
            Some(frame) => {
                assert(frames.last() == frame.deep_view());
                let (kept, error) = take_colon(frame, &span);
                self.stack.push(kept);
                match error {
                    Some(e) => Ok(self.recover_from_bracket_error(e, &span, tokens, i + 1)),
                    None => Ok(i + 1),
                }
            },
        }
    }
}

} // verus!
