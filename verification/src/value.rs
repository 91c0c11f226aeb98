//! Literals and names: a value of the innermost form, or a key where a colon follows. And the
//! comments between them.
use crate::ast::{Span, Spanned, SurfaceExpression, SurfaceNode};
use crate::diagnostic::TypeDiagnostic;
use crate::frame::{FrameV, StackFrame};
use crate::lexer::{TokV, Token, TokenV};
use crate::model::{ExprV, NodeV, SpanV, Text};
use crate::node::{mk, mk_string, mk_var, string_node, var_node};
use crate::state::{same_step, settled, Parser, StateV, StepV};
use crate::stream::{
    add_leading, add_leading_comments, colon_follows, ends_line, has_colon_after, next_significant,
    peek_next_significant, span_key, start_key, CommentsV,
};
use std::sync::Arc;
use vstd::prelude::*;

verus! {

/// The expression of a literal or an escaped name.
pub open spec fn literal_node(t: TokV) -> Option<NodeV> {
    match t.tok {
        TokenV::Int(n) => Some(NodeV { expr: ExprV::Int(n), span: t.span }),
        TokenV::U64Lit(n) => Some(NodeV { expr: ExprV::U64(n), span: t.span }),
        TokenV::Float(s) => Some(NodeV { expr: ExprV::Float(s), span: t.span }),
        TokenV::StringLiteral { prefix, delimiter, content } => Some(
            NodeV { expr: ExprV::StringLiteral { prefix, delimiter, content }, span: t.span },
        ),
        TokenV::EscapedRef(name) => Some(var_node(name, true, t.span)),
        _ => None,
    }
}

/// Whether a literal before a colon is a key of a dict.
pub open spec fn literal_key(t: TokenV) -> bool {
    t is Int || t is StringLiteral || t is EscapedRef
}

/// A dict with a key that waits for its value.
pub open spec fn dict_with_key(f: FrameV, key: NodeV) -> Option<FrameV> {
    match f {
        FrameV::Dict { entries, seen_keys, span_start, floating_annotation, .. } => Some(
            FrameV::Dict {
                entries,
                pending_key: Some(key),
                seen_keys,
                span_start,
                floating_annotation,
            },
        ),
        _ => None,
    }
}

/// A form with a word as a key that waits for its value, where the form has keys: a pattern in a
/// match, a string elsewhere.
pub open spec fn with_word_key(f: FrameV, word: Text, span: SpanV) -> Option<FrameV> {
    match f {
        FrameV::Dict { .. } => dict_with_key(f, string_node(word, span)),
        FrameV::Call { func, implied, args, span_start, .. } => Some(
            FrameV::Call { func, implied, args, pending_key: Some((word, span, None)), span_start },
        ),
        FrameV::ClassDecl { name, params, methods, structural_metadata, span_start, .. } => Some(
            FrameV::ClassDecl {
                name,
                params,
                methods,
                pending_key: Some(string_node(word, span)),
                structural_metadata,
                span_start,
            },
        ),
        FrameV::InstanceDecl {
            class_name,
            arms,
            pending_arm_pattern,
            current_arm_methods,
            span_start,
            ..
        } => Some(
            FrameV::InstanceDecl {
                class_name,
                arms,
                pending_arm_pattern,
                pending_key: Some(string_node(word, span)),
                current_arm_methods,
                span_start,
            },
        ),
        FrameV::SyntaxClass { name, pattern, message, span_start, .. } => Some(
            FrameV::SyntaxClass {
                name,
                pattern,
                message,
                pending_key: Some(string_node(word, span)),
                span_start,
            },
        ),
        FrameV::Match { scrutinee, arms, pending_pattern, span_start, .. } => Some(
            FrameV::Match {
                scrutinee,
                arms,
                pending_pattern_expr: Some(var_node(word, false, span)),
                pending_pattern,
                span_start,
            },
        ),
        _ => None,
    }
}

/// The state after a key: the innermost form is replaced.
pub open spec fn key_taken(s: StateV, f: FrameV, span: SpanV, i: int) -> StepV {
    StepV::Next(
        StateV {
            stack: s.stack.drop_last().push(f),
            last: Some(span),
            node: Some(span),
            ..s
        },
        i + 1,
    )
}

/// What the literal at place `i` leads to.
#[verifier::opaque]
pub open spec fn literal_step(s: StateV, node: NodeV, tokens: Seq<TokV>, i: int) -> StepV {
    let span = tokens[i].span;
    if literal_key(tokens[i].tok) && colon_follows(tokens, i) && s.stack.len() > 0 {
        match dict_with_key(s.stack.last(), node) {
            Some(f) => key_taken(s, f, span, i),
            None => settled(s, node, span, tokens, i),
        }
    } else {
        settled(s, node, span, tokens, i)
    }
}

/// What the word at place `i` leads to.
#[verifier::opaque]
pub open spec fn word_step(s: StateV, word: Text, tokens: Seq<TokV>, i: int) -> StepV {
    let span = tokens[i].span;
    let node = var_node(word, false, span);
    if colon_follows(tokens, i) && s.stack.len() > 0 {
        match with_word_key(s.stack.last(), word, span) {
            Some(f) => key_taken(s, f, span, i),
            None => settled(s, node, span, tokens, i),
        }
    } else {
        settled(s, node, span, tokens, i)
    }
}

/// The node that a comment on a line follows, if it does: the one that was completed last, where the
/// last token or the end of the node is on the line.
pub open spec fn followed(last: Option<SpanV>, node: Option<SpanV>, line: u32) -> Option<SpanV> {
    match node {
        Some(n) => if n.end_line == line || (last is Some && last->0.start_line == line) {
            node
        } else {
            None
        },
        None => None,
    }
}

/// The comments after the comment at place `i`: it belongs to the node that it follows, and else to
/// what starts at the token that follows it.
pub open spec fn commented(
    c: CommentsV,
    node: Option<SpanV>,
    text: Text,
    tokens: Seq<TokV>,
    i: int,
) -> CommentsV {
    let k = next_significant(tokens, i + 1);
    if node is Some {
        CommentsV { trailing: c.trailing.insert(start_key(node->0), text), ..c }
    } else if k < tokens.len() {
        CommentsV {
            leading: add_leading(c.leading, start_key(tokens[k].span), seq![text]),
            ..c
        }
    } else {
        c
    }
}

/// What the comment at place `i` leads to.
#[verifier::opaque]
pub open spec fn comment_step(s: StateV, text: Text, tokens: Seq<TokV>, i: int) -> StepV {
    StepV::Next(
        StateV {
            comments: commented(
                s.comments,
                followed(s.last, s.node, tokens[i].span.start_line),
                text,
                tokens,
                i,
            ),
            ..s
        },
        i + 1,
    )
}

/// The expression of a literal or an escaped name.
pub fn token_literal(t: &Spanned<Token>) -> (r: Option<Arc<SurfaceNode>>)
    ensures
        r.deep_view() == literal_node(t.deep_view()),
{
    match &t.node {
        Token::Int(n) => Some(mk(SurfaceExpression::Int(*n), t.span.clone())),
        Token::U64Lit(n) => Some(mk(SurfaceExpression::U64(*n), t.span.clone())),
        Token::Float(s) => Some(mk(SurfaceExpression::Float(s.clone()), t.span.clone())),
        Token::StringLiteral { prefix, delimiter, content } => Some(
            mk(
                SurfaceExpression::StringLiteral {
                    prefix: prefix.clone(),
                    delimiter: delimiter.clone(),
                    content: content.clone(),
                },
                t.span.clone(),
            ),
        ),
        Token::EscapedRef(name) => Some(mk_var(name.clone(), true, t.span.clone())),
        _ => None,
    }
}

fn give_key(frame: StackFrame, key: &Arc<SurfaceNode>) -> (r: (StackFrame, bool))
    ensures
        r.1 == (dict_with_key(frame.deep_view(), key.deep_view()) is Some),
        r.1 ==> Some(r.0.deep_view()) == dict_with_key(frame.deep_view(), key.deep_view()),
        !r.1 ==> r.0 == frame,
{
    match frame {
        StackFrame::Dict { entries, seen_keys, span_start, floating_annotation, .. } => (
            StackFrame::Dict {
                entries,
                pending_key: Some(Arc::clone(key)),
                seen_keys,
                span_start,
                floating_annotation,
            },
            true,
        ),
        other => (other, false),
    }
}

fn give_word_key(frame: StackFrame, word: &String, span: &Span) -> (r: (StackFrame, bool))
    ensures
        r.1 == (with_word_key(frame.deep_view(), word@, span.deep_view()) is Some),
        r.1 ==> Some(r.0.deep_view()) == with_word_key(
            frame.deep_view(),
            word@,
            span.deep_view(),
        ),
        !r.1 ==> r.0 == frame,
{
    match frame {
        StackFrame::Dict { entries, seen_keys, span_start, floating_annotation, .. } => (
            StackFrame::Dict {
                entries,
                pending_key: Some(mk_string(word.clone(), span.clone())),
                seen_keys,
                span_start,
                floating_annotation,
            },
            true,
        ),
        StackFrame::Call { func, implied, args, span_start, .. } => (
            StackFrame::Call {
                func,
                implied,
                args,
                pending_key: Some((word.clone(), span.clone(), None)),
                span_start,
            },
            true,
        ),
        StackFrame::ClassDecl { name, params, methods, structural_metadata, span_start, .. } => (
            StackFrame::ClassDecl {
                name,
                params,
                methods,
                pending_key: Some(mk_string(word.clone(), span.clone())),
                structural_metadata,
                span_start,
            },
            true,
        ),
        StackFrame::InstanceDecl {
            class_name,
            arms,
            pending_arm_pattern,
            current_arm_methods,
            span_start,
            ..
        } => (
            StackFrame::InstanceDecl {
                class_name,
                arms,
                pending_arm_pattern,
                pending_key: Some(mk_string(word.clone(), span.clone())),
                current_arm_methods,
                span_start,
            },
            true,
        ),
        StackFrame::SyntaxClass { name, pattern, message, span_start, .. } => (
            StackFrame::SyntaxClass {
                name,
                pattern,
                message,
                pending_key: Some(mk_string(word.clone(), span.clone())),
                span_start,
            },
            true,
        ),
        StackFrame::Match { scrutinee, arms, pending_pattern, span_start, .. } => (
            StackFrame::Match {
                scrutinee,
                arms,
                pending_pattern_expr: Some(mk_var(word.clone(), false, span.clone())),
                pending_pattern,
                span_start,
            },
            true,
        ),
        other => (other, false),
    }
}

impl Parser {
    /// Handles the literal at place `i`, whose expression is given.
    pub fn literal(&mut self, node: Arc<SurfaceNode>, tokens: &Vec<Spanned<Token>>, i: usize) -> (r:
        Result<usize, TypeDiagnostic>)
        requires
            i < tokens@.len(),
        ensures
            same_step(
                r,
                final(self).deep_view(),
                literal_step(
                    old(self).deep_view(),
                    node.deep_view(),
                    tokens.deep_view(),
                    i as int,
                ),
            ),
            r matches Ok(next) ==> i < next <= tokens@.len(),
    {
        broadcast use crate::model::group_models;

        reveal(literal_step);
        assert(tokens.deep_view()[i as int] == tokens@[i as int].deep_view());
        let n: usize = tokens.len();
        let ghost frames = self.stack.deep_view();
        let keyable: bool = match &tokens[i].node {
            Token::Int(_) => true,
            Token::StringLiteral { .. } => true,
            Token::EscapedRef(_) => true,
            _ => false,
        };
        if keyable && has_colon_after(tokens, i) {
            match self.stack.pop() {
                Some(frame) => {
                    assert(frames.last() == frame.deep_view());
                    assert(frames.drop_last().push(frames.last()) =~= frames);
                    let (kept, done) = give_key(frame, &node);
                    self.stack.push(kept);
                    if done {
                        self.last = Some(tokens[i].span.clone());
                        self.node = Some(tokens[i].span.clone());
                        return Ok(i + 1);
                    }
                    assert(self.stack.deep_view() == frames);
                },
                None => {},
            }
        }
        self.settle(node, &tokens[i].span, tokens, i)
    }

    /// Handles the word at place `i`.
    pub fn word(&mut self, word: &String, tokens: &Vec<Spanned<Token>>, i: usize) -> (r: Result<
        usize,
        TypeDiagnostic,
    >)
        requires
            i < tokens@.len(),
        ensures
            same_step(
                r,
                final(self).deep_view(),
                word_step(old(self).deep_view(), word@, tokens.deep_view(), i as int),
            ),
            r matches Ok(next) ==> i < next <= tokens@.len(),
    {
        broadcast use crate::model::group_models;

        reveal(word_step);
        assert(tokens.deep_view()[i as int] == tokens@[i as int].deep_view());
        let n: usize = tokens.len();
        let span: &Span = &tokens[i].span;
        let ghost frames = self.stack.deep_view();
        if has_colon_after(tokens, i) {
            match self.stack.pop() {
                Some(frame) => {
                    assert(frames.last() == frame.deep_view());
                    assert(frames.drop_last().push(frames.last()) =~= frames);
                    let (kept, done) = give_word_key(frame, word, span);
                    self.stack.push(kept);
                    if done {
                        self.last = Some(span.clone());
                        self.node = Some(span.clone());
                        return Ok(i + 1);
                    }
                    assert(self.stack.deep_view() == frames);
                },
                None => {},
            }
        }
        self.settle(mk_var(word.clone(), false, span.clone()), span, tokens, i)
    }

    /// Handles the comment at place `i`.
    pub fn comment(&mut self, text: &String, tokens: &Vec<Spanned<Token>>, i: usize) -> (r: usize)
        requires
            i < tokens@.len(),
        ensures
            StepV::Next(final(self).deep_view(), r as int) == comment_step(
                old(self).deep_view(),
                text@,
                tokens.deep_view(),
                i as int,
            ),
            i < r <= tokens@.len(),
    {
        broadcast use crate::model::group_models;

        reveal(comment_step);
        assert(tokens.deep_view()[i as int] == tokens@[i as int].deep_view());
        let n: usize = tokens.len();
        let ghost before = self.comments.deep_view();
        let line: u32 = tokens[i].span.start_line;
        let last_here: bool = match &self.last {
            Some(prev) => prev.start_line == line,
            None => false,
        };
        let behind: Option<u64> = match &self.node {
            Some(node) => if node.end_line == line || last_here {
                Some(span_key(node.start_line, node.start_col))
            } else {
                None
            },
            None => None,
        };
        match behind {
            Some(key) => {
                self.comments.trailing.insert(key, text.clone());
                assert(self.comments.deep_view().trailing =~= before.trailing.insert(key, text@));
            },
            None => match peek_next_significant(tokens, i) {
                Some((_, k)) => {
                    assert(tokens.deep_view()[k as int] == tokens@[k as int].deep_view());
                    let key: u64 = span_key(tokens[k].span.start_line, tokens[k].span.start_col);
                    let mut texts: Vec<String> = Vec::new();
                    texts.push(text.clone());
                    assert(texts.deep_view() =~= seq![text@]);
                    add_leading_comments(&mut self.comments.leading, key, texts);
                },
                None => {},
            },
        }
        i + 1
    }
}

/// The comments after the line end at place `i`: where a line end stands right before it, the token
/// that follows gets the mark of a blank line.
pub open spec fn line_ended(c: CommentsV, tokens: Seq<TokV>, i: int) -> CommentsV {
    let k = next_significant(tokens, i + 1);
    if i > 0 && ends_line(tokens[i - 1].tok) && k < tokens.len() {
        CommentsV { blank_before: c.blank_before.insert(start_key(tokens[k].span), true), ..c }
    } else {
        c
    }
}

/// What the line end at place `i` leads to.
#[verifier::opaque]
pub open spec fn line_step(s: StateV, tokens: Seq<TokV>, i: int) -> StepV {
    StepV::Next(StateV { comments: line_ended(s.comments, tokens, i), ..s }, i + 1)
}

impl Parser {
    /// Handles the line end at place `i`.
    pub fn line_end(&mut self, tokens: &Vec<Spanned<Token>>, i: usize) -> (r: usize)
        requires
            i < tokens@.len(),
        ensures
            StepV::Next(final(self).deep_view(), r as int) == line_step(
                old(self).deep_view(),
                tokens.deep_view(),
                i as int,
            ),
            i < r <= tokens@.len(),
    {
        broadcast use crate::model::group_models;

        reveal(line_step);
        let n: usize = tokens.len();
        if i > 0 {
            assert(tokens.deep_view()[i - 1] == tokens@[i - 1].deep_view());
            if matches!(tokens[i - 1].node, Token::Newline | Token::Semicolon) {
                match peek_next_significant(tokens, i) {
                    Some((_, k)) => {
                        assert(tokens.deep_view()[k as int] == tokens@[k as int].deep_view());
                        let key: u64 = span_key(
                            tokens[k].span.start_line,
                            tokens[k].span.start_col,
                        );
                        self.comments.blank_before.insert(key, true);
                    },
                    None => {},
                }
            }
        }
        i + 1
    }
}

/// Two line ends, one right behind the other, mark the token that follows them.
pub proof fn blank_lines_are_marked(s: StateV, tokens: Seq<TokV>, i: int)
    requires
        0 < i,
        ends_line(tokens[i - 1].tok),
        next_significant(tokens, i + 1) < tokens.len(),
    ensures
        line_step(s, tokens, i) matches StepV::Next(t, next) && next == i + 1
            && t.comments.blank_before.contains_key(
            start_key(tokens[next_significant(tokens, i + 1)].span),
        ),
{
    reveal(line_step);
}

/// A line end changes nothing but the comments.
pub proof fn line_ends_leave_the_tree(s: StateV, tokens: Seq<TokV>, i: int)
    ensures
        line_step(s, tokens, i) matches StepV::Next(t, next) && next == i + 1 && t == (StateV {
            comments: t.comments,
            ..s
        }),
{
    reveal(line_step);
}

/// A comment changes nothing but the comments.
pub proof fn comments_leave_the_tree(s: StateV, text: Text, tokens: Seq<TokV>, i: int)
    ensures
        comment_step(s, text, tokens, i) matches StepV::Next(t, next) && next == i + 1 && t == (
        StateV { comments: t.comments, ..s }),
{
    reveal(comment_step);
}

} // verus!
