//! Closing annotations: what is done once the expression after `@` is complete.
use crate::ast::{Annotation, Span, Spanned, SurfaceItem, SurfaceNode};
use crate::frame::{plain_err, AnnotationTarget, ErrV, FrameV, ParseError, StackFrame, TargetV};
use crate::model::{span_between, AnnotV, ItemV, NodeV, SpanV};
use crate::node::{annotated_node, annotation_of, create_annotated_node, expression_to_annotation};
use crate::place::{place, placed, push_value, PlacedV};
use std::sync::Arc;
use vstd::prelude::*;

verus! {

/// The open forms with a floating annotation on the innermost, which has to be a dict.
pub open spec fn with_floating(stack: Seq<FrameV>, ann: AnnotV) -> (Seq<FrameV>, Option<ErrV>) {
    if stack.len() > 0 && stack.last() is Dict {
        match stack.last() {
            FrameV::Dict { entries, pending_key, seen_keys, span_start, .. } => (
                stack.drop_last().push(
                    FrameV::Dict {
                        entries,
                        pending_key,
                        seen_keys,
                        span_start,
                        floating_annotation: Some(ann),
                    },
                ),
                None,
            ),
            _ => (stack, None),
        }
    } else {
        (
            stack,
            Some(
                plain_err(
                    "floating annotation not valid in this context; `[@Type expr]` is only supported inside a dict"@,
                    ann.span,
                ),
            ),
        )
    }
}

/// The open forms with a result annotation on the innermost, where it is a function.
pub open spec fn with_return(stack: Seq<FrameV>, ann: AnnotV) -> Seq<FrameV> {
    if stack.len() > 0 {
        match stack.last() {
            FrameV::Fn { params, body, span_start, params_consumed, .. } => stack.drop_last().push(
                FrameV::Fn { params, body, return_ann: Some(ann), span_start, params_consumed },
            ),
            _ => stack,
        }
    } else {
        stack
    }
}

/// The annotation that a value expression makes, with its region from the `@` on.
pub open spec fn collected(value: NodeV, span_start: SpanV) -> AnnotV {
    AnnotV {
        ann: annotation_of(value),
        span: span_between(span_start, value.span, value.span.file),
    }
}

/// What becomes of a complete annotation: it goes to its target.
pub open spec fn applied(
    stack: Seq<FrameV>,
    items: Seq<ItemV>,
    target: TargetV,
    ann: AnnotV,
) -> PlacedV {
    match target {
        TargetV::Attached(n) => placed(stack, items, annotated_node(n, ann)),
        TargetV::Floating => PlacedV {
            stack: with_floating(stack, ann).0,
            items,
            error: with_floating(stack, ann).1,
        },
        TargetV::FnReturn => PlacedV { stack: with_return(stack, ann), items, error: None },
    }
}

/// Closes the complete annotations on top of the open forms. Where another annotation follows
/// directly, they stay open.
pub open spec fn drained(stack: Seq<FrameV>, items: Seq<ItemV>, chained: bool) -> PlacedV
    decreases stack.len(),
{
    if !chained && stack.len() > 0 {
        match stack.last() {
            FrameV::AnnotationCollect { target, value: Some(value), span_start } => {
                let p = applied(stack.drop_last(), items, target, collected(value, span_start));
                proof {
                    applied_shrinks(
                        stack.drop_last(),
                        items,
                        target,
                        collected(value, span_start),
                    );
                }
                if p.error is Some {
                    p
                } else {
                    drained(p.stack, p.items, chained)
                }
            },
            _ => PlacedV { stack, items, error: None },
        }
    } else {
        PlacedV { stack, items, error: None }
    }
}

/// The region of the node that was completed last, after the complete annotations are closed: that
/// of the node that the last of them is attached to. `node` is the one before.
pub open spec fn drained_node(
    stack: Seq<FrameV>,
    items: Seq<ItemV>,
    chained: bool,
    node: Option<SpanV>,
) -> Option<SpanV>
    decreases stack.len(),
{
    if !chained && stack.len() > 0 {
        match stack.last() {
            FrameV::AnnotationCollect { target, value: Some(value), span_start } => {
                let ann = collected(value, span_start);
                let p = applied(stack.drop_last(), items, target, ann);
                proof {
                    applied_shrinks(stack.drop_last(), items, target, ann);
                }
                let here = match target {
                    TargetV::Attached(n) => Some(annotated_node(n, ann).span),
                    _ => None,
                };
                if p.error is Some {
                    here
                } else {
                    drained_node(p.stack, p.items, chained, here)
                }
            },
            _ => node,
        }
    } else {
        node
    }
}

/// Putting an expression in place opens no form.
pub proof fn placed_shrinks(stack: Seq<FrameV>, items: Seq<ItemV>, node: NodeV)
    ensures
        placed(stack, items, node).stack.len() <= stack.len(),
        stack.len() == 0 ==> placed(stack, items, node).error is None,
    decreases stack.len(),
{
    if stack.len() > 0 {
        match stack.last() {
            FrameV::Pipe { lhs, pipe_span } => {
                placed_shrinks(
                    stack.drop_last(),
                    items,
                    crate::place::pipe_node(lhs, pipe_span, node),
                );
            },
            _ => {},
        }
    }
}

/// Applying an annotation opens no form.
pub proof fn applied_shrinks(
    stack: Seq<FrameV>,
    items: Seq<ItemV>,
    target: TargetV,
    ann: AnnotV,
)
    ensures
        applied(stack, items, target, ann).stack.len() <= stack.len(),
{
    match target {
        TargetV::Attached(n) => {
            placed_shrinks(stack, items, annotated_node(n, ann));
        },
        _ => {},
    }
}

/// Sets the floating annotation of the innermost open form, which has to be a dict.
pub fn set_floating_annotation(
    stack: &mut Vec<StackFrame>,
    ann: Spanned<Annotation>,
) -> (r: Result<(), ParseError>)
    ensures
        final(stack).deep_view() == with_floating(old(stack).deep_view(), ann.deep_view()).0,
        match (r, with_floating(old(stack).deep_view(), ann.deep_view()).1) {
            (Ok(_), None) => true,
            (Err(e), Some(m)) => e.deep_view() == m,
            _ => false,
        },
{
    broadcast use crate::model::group_models;

    let ghost frames = stack.deep_view();
    match stack.pop() {
        Some(frame) => {
            assert(frames.last() == frame.deep_view());
            assert(frames.drop_last().push(frames.last()) =~= frames);
            match frame {
                StackFrame::Dict { entries, pending_key, seen_keys, span_start, .. } => {
                    stack.push(
                        StackFrame::Dict {
                            entries,
                            pending_key,
                            seen_keys,
                            span_start,
                            floating_annotation: Some(ann),
                        },
                    );
                    Ok(())
                },
                other => {
                    stack.push(other);
                    Err(misplaced_annotation(&ann))
                },
            }
        },
        None => Err(misplaced_annotation(&ann)),
    }
}

fn misplaced_annotation(ann: &Spanned<Annotation>) -> (r: ParseError)
    ensures
        r.deep_view() == with_floating(Seq::empty(), ann.deep_view()).1->0,
{
    ParseError::plain(
        "floating annotation not valid in this context; `[@Type expr]` is only supported inside a dict",
        &ann.span,
    )
}

fn set_return_annotation(stack: &mut Vec<StackFrame>, ann: Spanned<Annotation>)
    ensures
        final(stack).deep_view() == with_return(old(stack).deep_view(), ann.deep_view()),
{
    broadcast use crate::model::group_models;

    let ghost frames = stack.deep_view();
    match stack.pop() {
        Some(frame) => {
            assert(frames.last() == frame.deep_view());
            assert(frames.drop_last().push(frames.last()) =~= frames);
            match frame {
                StackFrame::Fn { params, body, span_start, params_consumed, .. } => {
                    stack.push(
                        StackFrame::Fn {
                            params,
                            body,
                            return_ann: Some(ann),
                            span_start,
                            params_consumed,
                        },
                    );
                },
                other => {
                    stack.push(other);
                },
            }
        },
        None => {},
    }
}

/// Closes the complete annotations on top of the open forms, unless another one follows directly.
/// `node` is the region of the node that was completed last.
pub fn drain_annotation_frames(
    stack: &mut Vec<StackFrame>,
    items: &mut Vec<SurfaceItem>,
    node: &mut Option<Span>,
    chained: bool,
) -> (r: Result<(), ParseError>)
    ensures
        final(node).deep_view() == drained_node(
            old(stack).deep_view(),
            old(items).deep_view(),
            chained,
            old(node).deep_view(),
        ),
        ({
            let p = drained(old(stack).deep_view(), old(items).deep_view(), chained);
            &&& final(stack).deep_view() == p.stack
            &&& final(items).deep_view() == p.items
            &&& match (r, p.error) {
                (Ok(_), None) => true,
                (Err(e), Some(m)) => e.deep_view() == m,
                _ => false,
            }
        }),
    decreases old(stack)@.len(),
{
    broadcast use crate::model::group_models;

    if chained {
        return Ok(());
    }
    let ghost frames = stack.deep_view();
    let ghost listed = items.deep_view();
    match stack.pop() {
        None => Ok(()),
        Some(frame) => {
            assert(frames.last() == frame.deep_view());
            assert(frames.drop_last().push(frames.last()) =~= frames);
            match frame {
                StackFrame::AnnotationCollect { target, value: Some(value), span_start } => {
                    let annotation: Spanned<Annotation> = Spanned {
                        node: expression_to_annotation(&value),
                        span: Span::between(&span_start, &value.span, &value.span.file),
                    };
                    proof {
                        applied_shrinks(
                            frames.drop_last(),
                            listed,
                            target.deep_view(),
                            annotation.deep_view(),
                        );
                    }
                    let result: Result<(), ParseError> = match target {
                        AnnotationTarget::Attached(n) => {
                            let whole: Arc<SurfaceNode> = create_annotated_node(n, annotation);
                            *node = Some(whole.span.clone());
                            push_value(stack, items, whole)
                        },
                        AnnotationTarget::Floating => {
                            *node = None;
                            set_floating_annotation(stack, annotation)
                        },
                        AnnotationTarget::FnReturn => {
                            *node = None;
                            set_return_annotation(stack, annotation);
                            Ok(())
                        },
                    };
                    match result {
                        Ok(_) => drain_annotation_frames(stack, items, node, chained),
                        Err(e) => Err(e),
                    }
                },
                other => {
                    stack.push(other);
                    Ok(())
                },
            }
        },
    }
}

} // verus!
