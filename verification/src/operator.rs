//! The signs that work on the expression before them: `.`, `|` and `@`. And the placeholder `...`.
use crate::annotate::{drain_annotation_frames, drained, drained_node};
use crate::ast::{Annotation, DotKey, Span, Spanned, SurfaceExpression, SurfaceItem, SurfaceNode};
use crate::diagnostic::{parse_diag, DiagV, TypeDiagnostic};
use crate::direct::{annotation_at, parse_annotation_direct};
use crate::frame::{diag_of, plain_err, AnnotationTarget, FrameV, ParseError, StackFrame, TargetV};
use crate::lexer::{describe_token, token_text, TokV, Token, TokenV};
use crate::model::{
    boxed_annot, boxed_node, span_between, DotKeyV, ExprV, ItemV, NodeV, SpanV, Text,
};
use crate::node::mk;
use crate::place::{placed, push_value};
use crate::state::{failed, recovered, same_step, with_node, with_placed, Parser, StateV, StepV};
use crate::stream::{
    immediate_at, is_immediate_at, next_significant, skip_whitespace_tokens, skipped,
};
use crate::take::{pop_last_value_from_frame, taken_from_stack};
use std::sync::Arc;
use vstd::prelude::*;

verus! {

/// The expression that a dot works on, taken out of the state; there may be none. A declaration
/// cannot be worked on.
pub open spec fn dot_target(s: StateV, span: SpanV) -> Result<(StateV, Option<NodeV>), DiagV> {
    if s.stack.len() == 0 {
        if s.items.len() == 0 {
            Ok((s, None))
        } else {
            match s.items.last() {
                ItemV::Expr(n) => Ok((StateV { items: s.items.drop_last(), ..s }, Some(n))),
                ItemV::Decl(_, _) => Err(
                    parse_diag(
                        "dot access requires a value expression, not a declaration"@,
                        span,
                    ),
                ),
            }
        }
    } else {
        let (stack, target) = taken_from_stack(s.stack, span);
        match target {
            Ok(n) => Ok((StateV { stack, ..s }, n)),
            Err(e) => Err(diag_of(e)),
        }
    }
}

/// The field access to a target, whose dot has the region `dot` and whose field stands at place
/// `k`.
pub open spec fn field_node(
    target: Option<NodeV>,
    field: DotKeyV,
    dot: SpanV,
    at: SpanV,
) -> NodeV {
    NodeV {
        expr: ExprV::Field { expr: boxed_node(target), field },
        span: span_between(
            match target {
                Some(t) => t.span,
                None => dot,
            },
            at,
            at.file,
        ),
    }
}

/// The field access is put in place, and the parse goes on behind place `k`.
pub open spec fn field_put(s: StateV, node: NodeV, tokens: Seq<TokV>, k: int) -> StepV {
    let p = placed(s.stack, s.items, node);
    match p.error {
        Some(e) => recovered(with_placed(s, p), e.message, node.span, tokens, k + 1),
        None => {
            let chained = is_immediate_at(tokens, k + 1);
            let d = drained(p.stack, p.items, chained);
            match d.error {
                Some(e) => recovered(with_placed(s, d), e.message, node.span, tokens, k + 1),
                None => StepV::Next(
                    StateV {
                        node: drained_node(p.stack, p.items, chained, Some(node.span)),
                        ..with_placed(s, d)
                    },
                    k + 1,
                ),
            }
        },
    }
}

/// What the dot at place `i` leads to, given its target.
pub open spec fn field_step(
    s: StateV,
    target: Option<NodeV>,
    tokens: Seq<TokV>,
    i: int,
) -> StepV {
    let span = tokens[i].span;
    let k = next_significant(tokens, i + 1);
    let after = StateV { comments: skipped(tokens, i + 1, s.comments), ..s };
    if k >= tokens.len() {
        failed(after, plain_err("expected field name after '.'"@, span), span, tokens, k)
    } else {
        let at = tokens[k].span;
        match tokens[k].tok {
            TokenV::Identifier(name) => field_put(
                after,
                field_node(target, DotKeyV::Ident(name), span, at),
                tokens,
                k,
            ),
            TokenV::Int(n) => if target is None {
                failed(
                    after,
                    plain_err(
                        "leading-dot requires an identifier field name; integer index '.N' is not valid without a target expression"@,
                        at,
                    ),
                    span,
                    tokens,
                    k + 1,
                )
            } else {
                field_put(after, field_node(target, DotKeyV::Int(n), span, at), tokens, k)
            },
            t => failed(
                after,
                plain_err(
                    "expected field name (identifier or integer) after '.', found "@ + token_text(
                        t,
                    ),
                    at,
                ),
                span,
                tokens,
                k + 1,
            ),
        }
    }
}

/// What the dot at place `i` leads to. Without a target it starts a name of the enclosing scope.
#[verifier::opaque]
pub open spec fn dot_step(s: StateV, tokens: Seq<TokV>, i: int) -> StepV {
    match dot_target(s, tokens[i].span) {
        Err(d) => StepV::Fatal(d),
        Ok((after, target)) => field_step(after, target, tokens, i),
    }
}

/// The message for a pipe without an expression before it.
pub open spec fn no_pipe_source() -> Text {
    "pipe operator requires a left-hand expression before '|'"@
}

/// The state with a pipe that waits for its right-hand side.
pub open spec fn piped(s: StateV, lhs: NodeV, span: SpanV) -> StateV {
    StateV { stack: s.stack.push(FrameV::Pipe { lhs, pipe_span: span }), ..s }
}

/// What the pipe at place `i` leads to.
#[verifier::opaque]
pub open spec fn pipe_step(s: StateV, tokens: Seq<TokV>, i: int) -> StepV {
    let span = tokens[i].span;
    if s.stack.len() == 0 {
        if s.items.len() == 0 {
            StepV::Fatal(parse_diag(no_pipe_source(), span))
        } else {
            match s.items.last() {
                ItemV::Expr(n) => StepV::Next(
                    piped(StateV { items: s.items.drop_last(), ..s }, n, span),
                    i + 1,
                ),
                ItemV::Decl(_, _) => StepV::Fatal(
                    parse_diag(
                        "pipe operator requires a value expression, not a declaration"@,
                        span,
                    ),
                ),
            }
        }
    } else {
        let (stack, source) = taken_from_stack(s.stack, span);
        let after = StateV { stack, ..s };
        match source {
            Ok(Some(n)) => StepV::Next(piped(after, n, span), i + 1),
            Ok(None) => recovered(after, no_pipe_source(), span, tokens, i + 1),
            Err(e) => recovered(after, e.message, span, tokens, i + 1),
        }
    }
}

/// The state with an annotation that waits for its expression.
pub open spec fn annotating(s: StateV, target: TargetV, span: SpanV) -> StateV {
    StateV {
        stack: s.stack.push(
            FrameV::AnnotationCollect { target, value: None, span_start: span },
        ),
        last: Some(span),
        node: match target {
            TargetV::Attached(n) => Some(n.span),
            _ => None,
        },
        ..s
    }
}

/// What the `@` right behind a value leads to: it belongs to the expression before it.
pub open spec fn attached_step(s: StateV, span: SpanV, i: int) -> StepV {
    let (stack, target) = taken_from_stack(s.stack, span);
    let after = StateV { stack, ..s };
    match target {
        Err(e) => StepV::Fatal(diag_of(e)),
        Ok(Some(n)) => StepV::Next(annotating(after, TargetV::Attached(n), span), i + 1),
        Ok(None) => if stack.len() == 0 && s.items.len() > 0 && s.items.last() is Expr {
            StepV::Next(
                annotating(
                    StateV { items: s.items.drop_last(), ..after },
                    TargetV::Attached(s.items.last()->Expr_0),
                    span,
                ),
                i + 1,
            )
        } else {
            StepV::Next(annotating(after, TargetV::Floating, span), i + 1)
        },
    }
}

/// What the `@` at place `i` leads to.
#[verifier::opaque]
pub open spec fn at_step(s: StateV, tokens: Seq<TokV>, i: int) -> StepV {
    let span = tokens[i].span;
    if tokens[i].tok is ImmediateAt {
        attached_step(s, span, i)
    } else {
        StepV::Next(annotating(s, TargetV::Floating, span), i + 1)
    }
}

/// A placeholder is put in place, and the parse goes on from place `next`.
pub open spec fn placeholder_put(
    s: StateV,
    node: NodeV,
    tokens: Seq<TokV>,
    next: int,
) -> StepV {
    let p = placed(s.stack, s.items, node);
    match p.error {
        Some(e) => recovered(with_placed(s, p), e.message, node.span, tokens, next),
        None => StepV::Next(StateV { last: Some(node.span), ..with_node(s, p, node) }, next),
    }
}

/// The region of a placeholder with a name.
pub open spec fn placeholder_span(ellipsis: SpanV, name: Text, at: SpanV) -> SpanV {
    SpanV { name: Some(name), ..span_between(ellipsis, at, ellipsis.file) }
}

/// What the ellipsis at place `i` leads to: a placeholder with an optional name, which can have an
/// annotation.
#[verifier::opaque]
pub open spec fn ellipsis_step(s: StateV, tokens: Seq<TokV>, i: int) -> StepV {
    let span = tokens[i].span;
    let k = next_significant(tokens, i + 1);
    let after = StateV { comments: skipped(tokens, i + 1, s.comments), ..s };
    if k < tokens.len() && tokens[k].tok is Identifier {
        let name = tokens[k].tok->Identifier_0;
        let whole = placeholder_span(span, name, tokens[k].span);
        if is_immediate_at(tokens, k + 1) {
            match annotation_at(tokens, k + 1, after.comments) {
                Err(e) => StepV::Fatal(diag_of(e.err)),
                Ok(read) => placeholder_put(
                    StateV { comments: read.comments, ..after },
                    NodeV {
                        expr: ExprV::Placeholder(Some(name), Some(Box::new(read.ann))),
                        span: whole,
                    },
                    tokens,
                    read.next,
                ),
            }
        } else {
            placeholder_put(
                after,
                NodeV { expr: ExprV::Placeholder(Some(name), None), span: whole },
                tokens,
                k + 1,
            )
        }
    } else {
        placeholder_put(after, NodeV { expr: ExprV::Placeholder(None, None), span }, tokens, k)
    }
}

/// The last item, where it is an expression.
fn pop_expr(items: &mut Vec<SurfaceItem>) -> (r: Option<Arc<SurfaceNode>>)
    ensures
        match r {
            Some(n) => {
                &&& old(items)@.len() > 0
                &&& old(items).deep_view().last() == ItemV::Expr(n.deep_view())
                &&& final(items).deep_view() == old(items).deep_view().drop_last()
            },
            None => {
                &&& old(items)@.len() == 0 || old(items).deep_view().last() is Decl
                &&& final(items).deep_view() == old(items).deep_view()
            },
        },
{
    broadcast use crate::model::group_models;

    let ghost all = items.deep_view();
    match items.pop() {
        Some(SurfaceItem::Expr(n)) => {
            assert(all.last() == ItemV::Expr(n.deep_view()));
            Some(n)
        },
        Some(other) => {
            assert(all.last() == other.deep_view());
            items.push(other);
            assert(items.deep_view() =~= all);
            None
        },
        None => None,
    }
}

impl Parser {
    fn take_dot_target(&mut self, span: &Span) -> (r: Result<
        Option<Arc<SurfaceNode>>,
        TypeDiagnostic,
    >)
        ensures
            match (r, dot_target(old(self).deep_view(), span.deep_view())) {
                (Ok(n), Ok((after, v))) => final(self).deep_view() == after && n.deep_view() == v,
                (Err(d), Err(v)) => d.deep_view() == v,
                _ => false,
            },
    {
        broadcast use crate::model::group_models;

        if self.stack.len() > 0 {
            return match pop_last_value_from_frame(&mut self.stack, span) {
                Ok(n) => Ok(n),
                Err(e) => Err(e.into_diagnostic()),
            };
        }
        let ghost all = self.items.deep_view();
        if self.items.len() == 0 {
            return Ok(None);
        }
        match pop_expr(&mut self.items) {
            Some(n) => Ok(Some(n)),
            None => Err(
                TypeDiagnostic::error(
                    "parse-error",
                    "dot access requires a value expression, not a declaration".to_owned(),
                    span.clone(),
                ),
            ),
        }
    }

    fn put_field(
        &mut self,
        target: Option<Arc<SurfaceNode>>,
        field: DotKey,
        dot: &Span,
        tokens: &Vec<Spanned<Token>>,
        k: usize,
    ) -> (r: usize)
        requires
            k < tokens@.len(),
        ensures
            StepV::Next(final(self).deep_view(), r as int) == field_put(
                old(self).deep_view(),
                field_node(
                    target.deep_view(),
                    field.deep_view(),
                    dot.deep_view(),
                    tokens.deep_view()[k as int].span,
                ),
                tokens.deep_view(),
                k as int,
            ),
            k < r <= tokens@.len(),
    {
        broadcast use crate::model::group_models;

        assert(tokens.deep_view()[k as int] == tokens@[k as int].deep_view());
        let n: usize = tokens.len();
        let at: &Span = &tokens[k].span;
        let whole: Span = match &target {
            Some(t) => Span::between(&t.span, at, &at.file),
            None => Span::between(dot, at, &at.file),
        };
        let node: Arc<SurfaceNode> = mk(
            SurfaceExpression::Field { expr: target, field },
            whole.clone(),
        );
        assert(node.deep_view() == field_node(
            target.deep_view(),
            field.deep_view(),
            dot.deep_view(),
            at.deep_view(),
        ));
        self.node = Some(whole.clone());
        match push_value(&mut self.stack, &mut self.items, node) {
            Err(e) => {
                return self.recover_from_bracket_error(e, &whole, tokens, k + 1);
            },
            Ok(_) => {},
        }
        let chained: bool = immediate_at(tokens, k + 1);
        match drain_annotation_frames(&mut self.stack, &mut self.items, &mut self.node, chained) {
            Err(e) => self.recover_from_bracket_error(e, &whole, tokens, k + 1),
            Ok(_) => k + 1,
        }
    }

    /// Handles the dot at place `i`.
    pub fn dot(&mut self, tokens: &Vec<Spanned<Token>>, i: usize) -> (r: Result<
        usize,
        TypeDiagnostic,
    >)
        requires
            i < tokens@.len(),
        ensures
            same_step(
                r,
                final(self).deep_view(),
                dot_step(old(self).deep_view(), tokens.deep_view(), i as int),
            ),
            r matches Ok(next) ==> i < next <= tokens@.len(),
    {
        broadcast use crate::model::group_models;

        reveal(dot_step);
        assert(tokens.deep_view()[i as int] == tokens@[i as int].deep_view());
        let n: usize = tokens.len();
        let span: Span = tokens[i].span.clone();
        let target: Option<Arc<SurfaceNode>> = match self.take_dot_target(&span) {
            Ok(t) => t,
            Err(d) => {
                return Err(d);
            },
        };
        let k: usize = skip_whitespace_tokens(tokens, i + 1, &mut self.comments);
        if k >= n {
            let error: ParseError = ParseError::plain("expected field name after '.'", &span);
            return self.fail(error, &span, tokens, k);
        }
        assert(tokens.deep_view()[k as int] == tokens@[k as int].deep_view());
        match &tokens[k].node {
            Token::Identifier(name) => Ok(
                self.put_field(target, DotKey::Ident(name.clone()), &span, tokens, k),
            ),
            Token::Int(number) => {
                if target.is_none() {
                    let error: ParseError = ParseError::plain(
                        "leading-dot requires an identifier field name; integer index '.N' is not valid without a target expression",
                        &tokens[k].span,
                    );
                    self.fail(error, &span, tokens, k + 1)
                } else {
                    Ok(self.put_field(target, DotKey::Int(*number), &span, tokens, k))
                }
            },
            other => {
                let mut message: String =
                    "expected field name (identifier or integer) after '.', found ".to_owned();
                message.append(describe_token(other).as_str());
                let error: ParseError = ParseError {
                    message,
                    span: tokens[k].span.clone(),
                    help: None,
                };
                self.fail(error, &span, tokens, k + 1)
            },
        }
    }

    /// Handles the pipe at place `i`.
    pub fn pipe(&mut self, tokens: &Vec<Spanned<Token>>, i: usize) -> (r: Result<
        usize,
        TypeDiagnostic,
    >)
        requires
            i < tokens@.len(),
        ensures
            same_step(
                r,
                final(self).deep_view(),
                pipe_step(old(self).deep_view(), tokens.deep_view(), i as int),
            ),
            r matches Ok(next) ==> i < next <= tokens@.len(),
    {
        broadcast use crate::model::group_models;

        reveal(pipe_step);
        assert(tokens.deep_view()[i as int] == tokens@[i as int].deep_view());
        let n: usize = tokens.len();
        let span: Span = tokens[i].span.clone();
        let lhs: Arc<SurfaceNode> = if self.stack.len() == 0 {
            let empty: bool = self.items.len() == 0;
            match pop_expr(&mut self.items) {
                Some(node) => node,
                None => {
                    let message: &str = if empty {
                        "pipe operator requires a left-hand expression before '|'"
                    } else {
                        "pipe operator requires a value expression, not a declaration"
                    };
                    return Err(
                        TypeDiagnostic::error("parse-error", message.to_owned(), span),
                    );
                },
            }
        } else {
            match pop_last_value_from_frame(&mut self.stack, &span) {
                Ok(Some(node)) => node,
                Ok(None) => {
                    let error: ParseError = ParseError::plain(
                        "pipe operator requires a left-hand expression before '|'",
                        &span,
                    );
                    return Ok(self.recover_from_bracket_error(error, &span, tokens, i + 1));
                },
                Err(e) => {
                    return Ok(self.recover_from_bracket_error(e, &span, tokens, i + 1));
                },
            }
        };
        self.stack.push(StackFrame::Pipe { lhs, pipe_span: span });
        Ok(i + 1)
    }

    /// Handles the `@` at place `i`.
    pub fn at_sign(&mut self, tokens: &Vec<Spanned<Token>>, i: usize) -> (r: Result<
        usize,
        TypeDiagnostic,
    >)
        requires
            i < tokens@.len(),
        ensures
            same_step(
                r,
                final(self).deep_view(),
                at_step(old(self).deep_view(), tokens.deep_view(), i as int),
            ),
            r matches Ok(next) ==> i < next <= tokens@.len(),
    {
        broadcast use crate::model::group_models;

        reveal(at_step);
        assert(tokens.deep_view()[i as int] == tokens@[i as int].deep_view());
        let n: usize = tokens.len();
        let span: Span = tokens[i].span.clone();
        let attached: bool = matches!(&tokens[i].node, Token::ImmediateAt);
        let target: AnnotationTarget = if attached {
            match pop_last_value_from_frame(&mut self.stack, &span) {
                Err(e) => {
                    return Err(e.into_diagnostic());
                },
                Ok(Some(node)) => AnnotationTarget::Attached(node),
                Ok(None) => if self.stack.len() == 0 {
                    match pop_expr(&mut self.items) {
                        Some(node) => AnnotationTarget::Attached(node),
                        None => AnnotationTarget::Floating,
                    }
                } else {
                    AnnotationTarget::Floating
                },
            }
        } else {
            AnnotationTarget::Floating
        };
        self.node = match &target {
            AnnotationTarget::Attached(node) => Some(node.span.clone()),
            _ => None,
        };
        self.stack.push(
            StackFrame::AnnotationCollect { target, value: None, span_start: span.clone() },
        );
        self.last = Some(span);
        Ok(i + 1)
    }

    fn put_placeholder(
        &mut self,
        name: Option<String>,
        annotation: Option<Spanned<Annotation>>,
        span: Span,
        tokens: &Vec<Spanned<Token>>,
        next: usize,
    ) -> (r: usize)
        requires
            next <= tokens@.len(),
        ensures
            StepV::Next(final(self).deep_view(), r as int) == placeholder_put(
                old(self).deep_view(),
                (NodeV {
                    expr: ExprV::Placeholder(
                        name.deep_view(),
                        boxed_annot(annotation.deep_view()),
                    ),
                    span: span.deep_view(),
                }),
                tokens.deep_view(),
                next as int,
            ),
            next <= r <= tokens@.len(),
    {
        broadcast use crate::model::group_models;

        let node: Arc<SurfaceNode> = mk(
            SurfaceExpression::Placeholder(name, annotation),
            span.clone(),
        );
        match push_value(&mut self.stack, &mut self.items, node) {
            Err(e) => self.recover_from_bracket_error(e, &span, tokens, next),
            Ok(_) => {
                self.node = Some(span.clone());
                self.last = Some(span);
                next
            },
        }
    }

    /// Handles the ellipsis at place `i`.
    pub fn ellipsis(&mut self, tokens: &Vec<Spanned<Token>>, i: usize) -> (r: Result<
        usize,
        TypeDiagnostic,
    >)
        requires
            i < tokens@.len(),
        ensures
            same_step(
                r,
                final(self).deep_view(),
                ellipsis_step(old(self).deep_view(), tokens.deep_view(), i as int),
            ),
            r matches Ok(next) ==> i < next <= tokens@.len(),
    {
        broadcast use crate::model::group_models;

        reveal(ellipsis_step);
        assert(tokens.deep_view()[i as int] == tokens@[i as int].deep_view());
        let n: usize = tokens.len();
        let span: Span = tokens[i].span.clone();
        let k: usize = skip_whitespace_tokens(tokens, i + 1, &mut self.comments);
        if k >= n {
            return Ok(self.put_placeholder(None, None, span, tokens, k));
        }
        assert(tokens.deep_view()[k as int] == tokens@[k as int].deep_view());
        match &tokens[k].node {
            Token::Identifier(name) => {
                let whole: Span = Span {
                    file: Arc::clone(&span.file),
                    start_line: span.start_line,
                    start_col: span.start_col,
                    end_line: tokens[k].span.end_line,
                    end_col: tokens[k].span.end_col,
                    name: Some(Arc::new(name.clone())),
                };
                assert(whole.deep_view() == placeholder_span(
                    span.deep_view(),
                    name@,
                    tokens.deep_view()[k as int].span,
                ));
                if immediate_at(tokens, k + 1) {
                    match parse_annotation_direct(tokens, k + 1, &mut self.comments) {
                        Err(e) => Err(e.into_diagnostic()),
                        Ok((annotation, next)) => Ok(
                            self.put_placeholder(
                                Some(name.clone()),
                                Some(annotation),
                                whole,
                                tokens,
                                next,
                            ),
                        ),
                    }
                } else {
                    Ok(self.put_placeholder(Some(name.clone()), None, whole, tokens, k + 1))
                }
            },
            _ => Ok(self.put_placeholder(None, None, span, tokens, k)),
        }
    }
}

} // verus!
