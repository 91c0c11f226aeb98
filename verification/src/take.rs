//! Taking the last expression back out of the open form, for what may follow it: a field access,
//! an annotation or a pipe.
use crate::ast::{Span, SurfaceMatchArm, SurfaceNode};
use crate::frame::{plain_err, CallArg, CallArgV, ErrV, FrameV, ParseError, StackFrame};
use crate::model::{AnnotV, ArmV, NodeV, SpanV, Text};
use crate::node::{key_text, key_to_string, named_class, positional};
use crate::place::{normal_key, place};
use std::sync::Arc;
use vstd::prelude::*;

verus! {

/// A form with its last expression taken out. Where an expression of a keyed pair leaves, its key
/// waits again. Some forms hold nothing that can be taken, and some refuse.
pub open spec fn taken(f: FrameV, span: SpanV) -> (FrameV, Result<Option<NodeV>, ErrV>) {
    match f {
        FrameV::Dict { entries, pending_key, seen_keys, span_start, floating_annotation } => {
            if pending_key is Some || entries.len() == 0 {
                (f, Ok(None))
            } else {
                let last = entries.last();
                (
                    FrameV::Dict {
                        entries: entries.drop_last(),
                        pending_key: last.key,
                        seen_keys: match last.key {
                            Some(k) => match key_text(k.expr) {
                                Some(text) => seen_keys.remove(text),
                                None => seen_keys,
                            },
                            None => seen_keys,
                        },
                        span_start,
                        floating_annotation,
                    },
                    Ok(Some(last.value)),
                )
            }
        },
        FrameV::Call { func, implied, args, pending_key, span_start } => if args.len() == 0 {
            (FrameV::Call { func: None, implied, args, pending_key, span_start }, Ok(func))
        } else {
            match args.last() {
                CallArgV::Positional(n) => (
                    FrameV::Call {
                        func,
                        implied,
                        args: args.drop_last(),
                        pending_key,
                        span_start,
                    },
                    Ok(Some(n)),
                ),
                CallArgV::Named(name, n, ann) => (
                    FrameV::Call {
                        func,
                        implied,
                        args: args.drop_last(),
                        pending_key: Some((name, span, ann)),
                        span_start,
                    },
                    Ok(Some(n)),
                ),
            }
        },
        FrameV::Fn { params, body, return_ann, span_start, params_consumed } => if body.len()
            == 0 {
            (f, Ok(None))
        } else {
            (
                FrameV::Fn {
                    params,
                    body: body.drop_last(),
                    return_ann,
                    span_start,
                    params_consumed,
                },
                Ok(Some(body.last())),
            )
        },
        FrameV::TypeAlias { params, type_exprs, pending_key, span_start } => if pending_key
            is Some {
            (
                FrameV::TypeAlias { params, type_exprs, pending_key: None, span_start },
                Ok(pending_key),
            )
        } else if type_exprs.len() == 0 {
            (f, Ok(None))
        } else {
            (
                FrameV::TypeAlias {
                    params,
                    type_exprs: type_exprs.drop_last(),
                    pending_key,
                    span_start,
                },
                Ok(Some(type_exprs.last().value)),
            )
        },
        FrameV::Quote { expr, span_start } => (FrameV::Quote { expr: None, span_start }, Ok(expr)),
        FrameV::Unquote { expr, span_start } => (
            FrameV::Unquote { expr: None, span_start },
            Ok(expr),
        ),
        FrameV::UnquoteSplice { expr, span_start } => (
            FrameV::UnquoteSplice { expr: None, span_start },
            Ok(expr),
        ),
        FrameV::Match { .. } => taken_from_match(f),
        FrameV::SyntaxClass { .. } => (
            f,
            Err(plain_err("dot access is not valid inside syntax-class form"@, span)),
        ),
        FrameV::ClassDecl { .. } => (
            f,
            Err(plain_err("dot access is not valid inside class form"@, span)),
        ),
        FrameV::InstanceDecl {
            class_name,
            arms,
            pending_arm_pattern,
            pending_key,
            current_arm_methods,
            span_start,
        } => if pending_arm_pattern is None && arms.len() == 0 {
            (
                FrameV::InstanceDecl {
                    class_name: None,
                    arms,
                    pending_arm_pattern,
                    pending_key,
                    current_arm_methods,
                    span_start,
                },
                Ok(class_name),
            )
        } else {
            (f, Ok(None))
        },
        FrameV::PatternDecl { .. } => (
            f,
            Err(plain_err("dot access is not valid inside pattern form"@, span)),
        ),
        FrameV::LetDecl { bindings, pending_key, pending_rhs, span_start } => if pending_key
            is Some {
            (
                FrameV::LetDecl { bindings, pending_key, pending_rhs: None, span_start },
                Ok(pending_rhs),
            )
        } else if bindings.len() == 0 {
            (f, Ok(None))
        } else {
            (
                FrameV::LetDecl {
                    bindings: bindings.drop_last(),
                    pending_key,
                    pending_rhs,
                    span_start,
                },
                Ok(Some(bindings.last())),
            )
        },
        FrameV::CaseDecl { let_bindings, pattern, body, span_start } => if pattern is Some {
            if body.len() > 0 {
                (
                    FrameV::CaseDecl { let_bindings, pattern, body: body.drop_last(), span_start },
                    Ok(Some(body.last())),
                )
            } else {
                (
                    FrameV::CaseDecl { let_bindings, pattern: None, body, span_start },
                    Ok(pattern),
                )
            }
        } else if let_bindings is Some {
            (
                f,
                Err(
                    plain_err("dot access is not valid in case arm [let bindings] position"@, span),
                ),
            )
        } else {
            (f, Ok(None))
        },
        FrameV::Pipe { .. } => (
            f,
            Err(plain_err("pipe operator '|' requires a right-hand expression"@, span)),
        ),
        FrameV::AnnotationCollect { target, value, span_start } => (
            FrameV::AnnotationCollect { target, value: None, span_start },
            Ok(value),
        ),
    }
}

/// A match with its last expression taken out: a waiting pattern, the last expression of the last
/// body (an arm whose body is then empty waits again), or the scrutinee.
pub open spec fn taken_from_match(f: FrameV) -> (FrameV, Result<Option<NodeV>, ErrV>) {
    match f {
        FrameV::Match { scrutinee, arms, pending_pattern_expr, pending_pattern, span_start } => {
            if pending_pattern_expr is Some {
                (
                    FrameV::Match {
                        scrutinee,
                        arms,
                        pending_pattern_expr: None,
                        pending_pattern,
                        span_start,
                    },
                    Ok(pending_pattern_expr),
                )
            } else if pending_pattern is Some {
                (f, Ok(None))
            } else if arms.len() > 0 {
                let arm = arms.last();
                if arm.body.len() == 1 {
                    (
                        FrameV::Match {
                            scrutinee,
                            arms: arms.drop_last(),
                            pending_pattern_expr,
                            pending_pattern: Some((arm.pattern, arm.guard)),
                            span_start,
                        },
                        Ok(Some(arm.body[0])),
                    )
                } else if arm.body.len() == 0 {
                    (f, Ok(None))
                } else {
                    (
                        FrameV::Match {
                            scrutinee,
                            arms: arms.drop_last().push(
                                ArmV { body: arm.body.drop_last(), ..arm },
                            ),
                            pending_pattern_expr,
                            pending_pattern,
                            span_start,
                        },
                        Ok(Some(arm.body.last())),
                    )
                }
            } else {
                (
                    FrameV::Match {
                        scrutinee: None,
                        arms,
                        pending_pattern_expr,
                        pending_pattern,
                        span_start,
                    },
                    Ok(scrutinee),
                )
            }
        },
        _ => (f, Ok(None)),
    }
}

/// The open forms with the last expression of the innermost taken out.
pub open spec fn taken_from_stack(stack: Seq<FrameV>, span: SpanV) -> (
    Seq<FrameV>,
    Result<Option<NodeV>, ErrV>,
) {
    if stack.len() == 0 {
        (stack, Ok(None))
    } else {
        (stack.drop_last().push(taken(stack.last(), span).0), taken(stack.last(), span).1)
    }
}

/// Whether a result is what its model says.
pub open spec fn same_taken(
    r: Result<Option<Arc<SurfaceNode>>, ParseError>,
    m: Result<Option<NodeV>, ErrV>,
) -> bool {
    match (r, m) {
        (Ok(n), Ok(v)) => n.deep_view() == v,
        (Err(e), Err(v)) => e.deep_view() == v,
        _ => false,
    }
}

fn take_from_match(frame: StackFrame) -> (r: (StackFrame, Option<Arc<SurfaceNode>>))
    requires
        frame is Match,
    ensures
        r.0.deep_view() == taken_from_match(frame.deep_view()).0,
        taken_from_match(frame.deep_view()).1 == Ok::<Option<NodeV>, ErrV>(r.1.deep_view()),
{
    broadcast use crate::model::group_models;

    match frame {
        StackFrame::Match {
            scrutinee,
            mut arms,
            pending_pattern_expr,
            pending_pattern,
            span_start,
        } => {
            if pending_pattern_expr.is_some() {
                return (
                    StackFrame::Match {
                        scrutinee,
                        arms,
                        pending_pattern_expr: None,
                        pending_pattern,
                        span_start,
                    },
                    pending_pattern_expr,
                );
            }
            if pending_pattern.is_some() {
                return (
                    StackFrame::Match {
                        scrutinee,
                        arms,
                        pending_pattern_expr,
                        pending_pattern,
                        span_start,
                    },
                    None,
                );
            }
            let ghost all = arms.deep_view();
            match arms.pop() {
                None => (
                    StackFrame::Match {
                        scrutinee: None,
                        arms,
                        pending_pattern_expr,
                        pending_pattern,
                        span_start,
                    },
                    scrutinee,
                ),
                Some(arm) => {
                    assert(all.last() == arm.deep_view());
                    let ghost back = all.drop_last().push(arm.deep_view());
                    assert(back =~= all);
                    let mut body: Vec<Arc<SurfaceNode>> = arm.body;
                    let ghost exprs = body.deep_view();
                    let count: usize = body.len();
                    match body.pop() {
                        None => {
                            arms.push(
                                SurfaceMatchArm {
                                    pattern: arm.pattern,
                                    let_bindings: arm.let_bindings,
                                    guard: arm.guard,
                                    body,
                                },
                            );
                            (
                                StackFrame::Match {
                                    scrutinee,
                                    arms,
                                    pending_pattern_expr,
                                    pending_pattern,
                                    span_start,
                                },
                                None,
                            )
                        },
                        Some(last) => {
                            assert(exprs.last() == last.deep_view());
                            if count == 1 {
                                (
                                    StackFrame::Match {
                                        scrutinee,
                                        arms,
                                        pending_pattern_expr,
                                        pending_pattern: Some((arm.pattern, arm.guard)),
                                        span_start,
                                    },
                                    Some(last),
                                )
                            } else {
                                arms.push(
                                    SurfaceMatchArm {
                                        pattern: arm.pattern,
                                        let_bindings: arm.let_bindings,
                                        guard: arm.guard,
                                        body,
                                    },
                                );
                                (
                                    StackFrame::Match {
                                        scrutinee,
                                        arms,
                                        pending_pattern_expr,
                                        pending_pattern,
                                        span_start,
                                    },
                                    Some(last),
                                )
                            }
                        },
                    }
                },
            }
        },
        other => (other, None),
    }
}

fn take_from_dict(frame: StackFrame) -> (r: (StackFrame, Option<Arc<SurfaceNode>>))
    requires
        frame is Dict,
    ensures
        forall|span: SpanV| #[trigger]
            taken(frame.deep_view(), span) == (
                r.0.deep_view(),
                Ok::<Option<NodeV>, ErrV>(r.1.deep_view()),
            ),
{
    broadcast use crate::model::group_models;

    match frame {
        StackFrame::Dict {
            mut entries,
            pending_key,
            mut seen_keys,
            span_start,
            floating_annotation,
        } => {
            let ghost all = entries.deep_view();
            if pending_key.is_some() {
                return (
                    StackFrame::Dict {
                        entries,
                        pending_key,
                        seen_keys,
                        span_start,
                        floating_annotation,
                    },
                    None,
                );
            }
            match entries.pop() {
                None => (
                    StackFrame::Dict {
                        entries,
                        pending_key,
                        seen_keys,
                        span_start,
                        floating_annotation,
                    },
                    None,
                ),
                Some(last) => {
                    assert(all.last() == last.deep_view());
                    match &last.node.key {
                        Some(k) => {
                            match key_to_string(&k.expr) {
                                Some(text) => {
                                    seen_keys.remove(text.as_str());
                                },
                                None => {},
                            }
                        },
                        None => {},
                    }
                    (
                        StackFrame::Dict {
                            entries,
                            pending_key: last.node.key,
                            seen_keys,
                            span_start,
                            floating_annotation,
                        },
                        Some(last.node.value),
                    )
                },
            }
        },
        other => (other, None),
    }
}

fn take_from_frame(frame: StackFrame, span: &Span) -> (r: (
    StackFrame,
    Result<Option<Arc<SurfaceNode>>, ParseError>,
))
    ensures
        r.0.deep_view() == taken(frame.deep_view(), span.deep_view()).0,
        same_taken(r.1, taken(frame.deep_view(), span.deep_view()).1),
{
    broadcast use crate::model::group_models;

    match frame {
        StackFrame::Call { func, implied, mut args, pending_key, span_start } => {
            let ghost all = args.deep_view();
            match args.pop() {
                None => (
                    StackFrame::Call { func: None, implied, args, pending_key, span_start },
                    Ok(func),
                ),
                Some(arg) => {
                    assert(all.last() == arg.deep_view());
                    match arg {
                        CallArg::Positional(n) => (
                            StackFrame::Call { func, implied, args, pending_key, span_start },
                            Ok(Some(n)),
                        ),
                        CallArg::Named(name, n, ann) => (
                            StackFrame::Call {
                                func,
                                implied,
                                args,
                                pending_key: Some((name, span.clone(), ann)),
                                span_start,
                            },
                            Ok(Some(n)),
                        ),
                    }
                },
            }
        },
        StackFrame::Fn { params, mut body, return_ann, span_start, params_consumed } => {
            let ghost all = body.deep_view();
            let last: Option<Arc<SurfaceNode>> = body.pop();
            assert(all.len() > 0 ==> all.last() == last->0.deep_view());
            (StackFrame::Fn { params, body, return_ann, span_start, params_consumed }, Ok(last))
        },
        StackFrame::TypeAlias { params, mut type_exprs, pending_key, span_start } => {
            if pending_key.is_some() {
                return (
                    StackFrame::TypeAlias { params, type_exprs, pending_key: None, span_start },
                    Ok(pending_key),
                );
            }
            let ghost all = type_exprs.deep_view();
            match type_exprs.pop() {
                None => (
                    StackFrame::TypeAlias { params, type_exprs, pending_key, span_start },
                    Ok(None),
                ),
                Some(last) => {
                    assert(all.last() == last.deep_view());
                    (
                        StackFrame::TypeAlias { params, type_exprs, pending_key, span_start },
                        Ok(Some(last.node.value)),
                    )
                },
            }
        },
        StackFrame::Quote { expr, span_start } => (
            StackFrame::Quote { expr: None, span_start },
            Ok(expr),
        ),
        StackFrame::Unquote { expr, span_start } => (
            StackFrame::Unquote { expr: None, span_start },
            Ok(expr),
        ),
        StackFrame::UnquoteSplice { expr, span_start } => (
            StackFrame::UnquoteSplice { expr: None, span_start },
            Ok(expr),
        ),
        StackFrame::InstanceDecl {
            class_name,
            arms,
            pending_arm_pattern,
            pending_key,
            current_arm_methods,
            span_start,
        } => if pending_arm_pattern.is_none() && arms.len() == 0 {
            (
                StackFrame::InstanceDecl {
                    class_name: None,
                    arms,
                    pending_arm_pattern,
                    pending_key,
                    current_arm_methods,
                    span_start,
                },
                Ok(class_name),
            )
        } else {
            (
                StackFrame::InstanceDecl {
                    class_name,
                    arms,
                    pending_arm_pattern,
                    pending_key,
                    current_arm_methods,
                    span_start,
                },
                Ok(None),
            )
        },
        StackFrame::LetDecl { mut bindings, pending_key, pending_rhs, span_start } => {
            if pending_key.is_some() {
                return (
                    StackFrame::LetDecl { bindings, pending_key, pending_rhs: None, span_start },
                    Ok(pending_rhs),
                );
            }
            let ghost all = bindings.deep_view();
            let last: Option<Arc<SurfaceNode>> = bindings.pop();
            assert(all.len() > 0 ==> all.last() == last->0.deep_view());
            (StackFrame::LetDecl { bindings, pending_key, pending_rhs, span_start }, Ok(last))
        },
        StackFrame::CaseDecl { let_bindings, pattern, mut body, span_start } => {
            if pattern.is_some() {
                let ghost all = body.deep_view();
                match body.pop() {
                    Some(last) => {
                        assert(all.last() == last.deep_view());
                        (
                            StackFrame::CaseDecl { let_bindings, pattern, body, span_start },
                            Ok(Some(last)),
                        )
                    },
                    None => (
                        StackFrame::CaseDecl { let_bindings, pattern: None, body, span_start },
                        Ok(pattern),
                    ),
                }
            } else if let_bindings.is_some() {
                (
                    StackFrame::CaseDecl { let_bindings, pattern, body, span_start },
                    Err(
                        ParseError::plain(
                            "dot access is not valid in case arm [let bindings] position",
                            span,
                        ),
                    ),
                )
            } else {
                (
                    StackFrame::CaseDecl { let_bindings, pattern, body, span_start },
                    Ok(None),
                )
            }
        },
        StackFrame::AnnotationCollect { target, value, span_start } => (
            StackFrame::AnnotationCollect { target, value: None, span_start },
            Ok(value),
        ),
        other => match &other {
            StackFrame::Dict { .. } => {
                let (f, n) = take_from_dict(other);
                (f, Ok(n))
            },
            StackFrame::Match { .. } => {
                let (f, n) = take_from_match(other);
                (f, Ok(n))
            },
            StackFrame::SyntaxClass { .. } => (
                other,
                Err(ParseError::plain("dot access is not valid inside syntax-class form", span)),
            ),
            StackFrame::ClassDecl { .. } => (
                other,
                Err(ParseError::plain("dot access is not valid inside class form", span)),
            ),
            StackFrame::PatternDecl { .. } => (
                other,
                Err(ParseError::plain("dot access is not valid inside pattern form", span)),
            ),
            _ => (
                other,
                Err(
                    ParseError::plain("pipe operator '|' requires a right-hand expression", span),
                ),
            ),
        },
    }
}

/// Takes the last expression out of the innermost open form. `None` means that there is nothing to
/// take.
pub fn pop_last_value_from_frame(stack: &mut Vec<StackFrame>, span: &Span) -> (r: Result<
    Option<Arc<SurfaceNode>>,
    ParseError,
>)
    ensures
        final(stack).deep_view() == taken_from_stack(old(stack).deep_view(), span.deep_view()).0,
        same_taken(r, taken_from_stack(old(stack).deep_view(), span.deep_view()).1),
{
    broadcast use crate::model::group_models;

    let ghost frames = stack.deep_view();
    match stack.pop() {
        None => Ok(None),
        Some(frame) => {
            assert(frames.last() == frame.deep_view());
            let (changed, result) = take_from_frame(frame, span);
            stack.push(changed);
            result
        },
    }
}

/// Whether a form that takes an expression in, without a key that waits, holds it as its last
/// expression.
pub open spec fn holds_last(f: FrameV, node: NodeV) -> bool {
    match f {
        FrameV::Dict { pending_key, .. } => pending_key is None,
        FrameV::Call { pending_key, .. } => pending_key is None,
        FrameV::Fn { body, params_consumed, .. } => params_consumed || body.len() > 0,
        FrameV::TypeAlias { params, type_exprs, pending_key, .. } => pending_key is None && (
        params.len() > 0 || type_exprs.len() > 0 || !(node.expr is LetDecl)),
        FrameV::Quote { .. } => true,
        FrameV::Unquote { .. } => true,
        FrameV::UnquoteSplice { .. } => true,
        FrameV::Match { scrutinee, arms, pending_pattern_expr, pending_pattern, .. } => {
            &&& pending_pattern_expr is None
            &&& scrutinee is None ==> pending_pattern is None && arms.len() == 0
        },
        FrameV::InstanceDecl { class_name, arms, pending_arm_pattern, .. } => class_name is None
            && pending_arm_pattern is None && arms.len() == 0,
        FrameV::LetDecl { pending_rhs, .. } => pending_rhs is None,
        FrameV::CaseDecl { let_bindings, pattern, body, .. } => let_bindings is Some && (pattern
            is None ==> body.len() == 0),
        FrameV::AnnotationCollect { .. } => true,
        _ => false,
    }
}

/// Taking the last expression out of a form undoes putting it in.
pub proof fn taking_undoes_placing(f: FrameV, node: NodeV, span: SpanV)
    requires
        holds_last(f, node),
        place(f, node).1 is None,
    ensures
        taken(place(f, node).0, span) == (f, Ok::<Option<NodeV>, ErrV>(Some(node))),
{
    match f {
        FrameV::Dict { entries, .. } => {
            assert(entries.push(positional(node)).drop_last() =~= entries);
        },
        FrameV::Call { args, .. } => {
            assert(args.push(CallArgV::Positional(node)).drop_last() =~= args);
        },
        FrameV::Fn { body, .. } => {
            assert(body.push(node).drop_last() =~= body);
        },
        FrameV::TypeAlias { type_exprs, .. } => {
            assert(type_exprs.push(positional(node)).drop_last() =~= type_exprs);
        },
        FrameV::Match { arms, pending_pattern, .. } => {
            match pending_pattern {
                Some((pattern, guard)) => {
                    let arm = ArmV { pattern, let_bindings: None, guard, body: seq![node] };
                    assert(arms.push(arm).drop_last() =~= arms);
                },
                None => {},
            }
        },
        FrameV::LetDecl { bindings, .. } => {
            assert(bindings.push(node).drop_last() =~= bindings);
        },
        FrameV::CaseDecl { body, .. } => {
            assert(body.push(node).drop_last() =~= body);
        },
        _ => {},
    }
}

/// Where a value is taken that belongs to the key of a dict, the key waits again, and it is no
/// longer one of the keys that were seen. (A class that gets its name from the key keeps the name.)
pub proof fn taking_frees_the_key(f: FrameV, node: NodeV, span: SpanV)
    requires
        f is Dict,
        f->Dict_pending_key is Some,
        place(f, node).1 is None,
    ensures
        taken(place(f, node).0, span) == (
            FrameV::Dict {
                entries: f->Dict_entries,
                pending_key: Some(normal_key(f->Dict_pending_key->0)),
                seen_keys: f->Dict_seen_keys,
                span_start: f->Dict_span_start,
                floating_annotation: f->Dict_floating_annotation,
            },
            Ok::<Option<NodeV>, ErrV>(
                Some(named_class(node, normal_key(f->Dict_pending_key->0))),
            ),
        ),
{
    match (f, place(f, node).0) {
        (
            FrameV::Dict { entries, pending_key: Some(raw), seen_keys, .. },
            FrameV::Dict { entries: after, seen_keys: seen, .. },
        ) => {
            assert(after.drop_last() =~= entries);
            match key_text(normal_key(raw).expr) {
                Some(text) => {
                    assert(seen.remove(text) =~= seen_keys);
                },
                None => {},
            }
        },
        _ => {},
    }
}

/// Where a named argument of a call is taken, its name waits again.
pub proof fn taking_frees_the_name(
    f: FrameV,
    name: Text,
    at: SpanV,
    ann: Option<AnnotV>,
    node: NodeV,
    span: SpanV,
)
    requires
        f is Call,
        f->Call_pending_key == Some((name, at, ann)),
    ensures
        taken(place(f, node).0, span) == (
            FrameV::Call {
                func: f->Call_func,
                implied: f->Call_implied,
                args: f->Call_args,
                pending_key: Some((name, span, ann)),
                span_start: f->Call_span_start,
            },
            Ok::<Option<NodeV>, ErrV>(Some(node)),
        ),
{
    match (f, place(f, node).0) {
        (FrameV::Call { args, .. }, FrameV::Call { args: after, .. }) => {
            assert(after.drop_last() =~= args);
        },
        _ => {},
    }
}

} // verus!
