//! The opening bracket: which form it opens.
use crate::ast::{Span, Spanned, SurfaceNode};
use crate::diagnostic::{parse_diag, TypeDiagnostic};
use crate::frame::{AnnotationTarget, FrameV, StackFrame, TargetV};
use crate::lexer::{TokV, Token, TokenV};
use crate::model::{SpanV, Text};
use crate::node::{mk_var, var_node};
use crate::state::{same_step, Parser, StateV, StepV};
use crate::stream::{
    colon_follows, has_colon_after, has_immediate_at_after, immediate_at, immediate_at_follows,
    is_immediate_at, next_significant, peek_next_significant, skip_whitespace_tokens, skipped,
};
use crate::text::text_is;
use std::sync::Arc;
use vstd::hash_set::StringHashSet;
use vstd::prelude::*;

verus! {

/// How many forms can be open at once.
pub const MAX_PARSE_DEPTH: usize = 256;

/// An empty dict form.
pub open spec fn dict_frame(span: SpanV) -> FrameV {
    FrameV::Dict {
        entries: Seq::empty(),
        pending_key: None,
        seen_keys: Set::empty(),
        span_start: span,
        floating_annotation: None,
    }
}

/// An empty `let` form.
pub open spec fn let_frame(span: SpanV) -> FrameV {
    FrameV::LetDecl {
        bindings: Seq::empty(),
        pending_key: None,
        pending_rhs: None,
        span_start: span,
    }
}

/// An empty `case` form.
pub open spec fn case_frame(span: SpanV) -> FrameV {
    FrameV::CaseDecl {
        let_bindings: None,
        pattern: None,
        body: Seq::empty(),
        span_start: span,
    }
}

/// An empty `fn` form.
pub open spec fn fn_frame(span: SpanV) -> FrameV {
    FrameV::Fn {
        params: Seq::empty(),
        body: Seq::empty(),
        return_ann: None,
        span_start: span,
        params_consumed: false,
    }
}

/// The empty form of a keyword, where the word is one; `fn` is apart.
pub open spec fn keyword_frame(word: Text, span: SpanV) -> Option<FrameV> {
    if word == "call"@ {
        Some(
            FrameV::Call {
                func: None,
                implied: false,
                args: Seq::empty(),
                pending_key: None,
                span_start: span,
            },
        )
    } else if word == "type"@ {
        Some(
            FrameV::TypeAlias {
                params: Seq::empty(),
                type_exprs: Seq::empty(),
                pending_key: None,
                span_start: span,
            },
        )
    } else if word == "quote"@ {
        Some(FrameV::Quote { expr: None, span_start: span })
    } else if word == "unquote"@ {
        Some(FrameV::Unquote { expr: None, span_start: span })
    } else if word == "unquote-splice"@ {
        Some(FrameV::UnquoteSplice { expr: None, span_start: span })
    } else if word == "syntax-class"@ {
        Some(
            FrameV::SyntaxClass {
                name: None,
                pattern: None,
                message: None,
                pending_key: None,
                span_start: span,
            },
        )
    } else if word == "match"@ {
        Some(
            FrameV::Match {
                scrutinee: None,
                arms: Seq::empty(),
                pending_pattern_expr: None,
                pending_pattern: None,
                span_start: span,
            },
        )
    } else if word == "class"@ {
        Some(
            FrameV::ClassDecl {
                name: None,
                params: Seq::empty(),
                methods: Seq::empty(),
                pending_key: None,
                structural_metadata: None,
                span_start: span,
            },
        )
    } else if word == "instance"@ {
        Some(
            FrameV::InstanceDecl {
                class_name: None,
                arms: Seq::empty(),
                pending_arm_pattern: None,
                pending_key: None,
                current_arm_methods: Seq::empty(),
                span_start: span,
            },
        )
    } else if word == "pattern"@ {
        Some(FrameV::PatternDecl { bindings: Seq::empty(), span_start: span })
    } else {
        None
    }
}

/// The state with one more open form.
pub open spec fn pushed(s: StateV, f: FrameV) -> StateV {
    StateV { stack: s.stack.push(f), ..s }
}

/// A form with a keyword is opened at place `i`, and the parse goes on behind the keyword.
pub open spec fn opened_by_word(s: StateV, f: FrameV, tokens: Seq<TokV>, i: int) -> StepV {
    StepV::Next(
        pushed(StateV { comments: skipped(tokens, i + 1, s.comments), ..s }, f),
        next_significant(tokens, i + 1) + 1,
    )
}

/// A function is opened at place `i`: an `@` right behind the keyword starts the annotation of the
/// result.
pub open spec fn opened_fn(s: StateV, span: SpanV, tokens: Seq<TokV>, i: int) -> StepV {
    let open = pushed(
        StateV { comments: skipped(tokens, i + 1, s.comments), ..s },
        fn_frame(span),
    );
    let next = next_significant(tokens, i + 1) + 1;
    if is_immediate_at(tokens, next) {
        StepV::Next(
            pushed(
                open,
                FrameV::AnnotationCollect {
                    target: TargetV::FnReturn,
                    value: None,
                    span_start: tokens[next].span,
                },
            ),
            next + 1,
        )
    } else {
        StepV::Next(open, next)
    }
}

/// A form that a word heads is opened at place `i`; the word stands at place `k`. A keyword opens
/// its form and another word a call, except that a word with a colon or an annotation opens a dict.
pub open spec fn opened_by_head(
    s: StateV,
    word: Text,
    span: SpanV,
    tokens: Seq<TokV>,
    i: int,
    k: int,
) -> StepV {
    if colon_follows(tokens, k) {
        StepV::Next(pushed(s, dict_frame(span)), i + 1)
    } else if word == "fn"@ {
        opened_fn(s, span, tokens, i)
    } else {
        match keyword_frame(word, span) {
            Some(f) => opened_by_word(s, f, tokens, i),
            None => if immediate_at_follows(tokens, k) {
                StepV::Next(pushed(s, dict_frame(span)), i + 1)
            } else {
                opened_by_word(
                    StateV { node: Some(tokens[k].span), ..s },
                    FrameV::Call {
                        func: Some(var_node(word, false, tokens[k].span)),
                        implied: true,
                        args: Seq::empty(),
                        pending_key: None,
                        span_start: span,
                    },
                    tokens,
                    i,
                )
            },
        }
    }
}

/// What the opening bracket at place `i` leads to. Inside `[let ...]` it opens a group of bindings.
#[verifier::opaque]
pub open spec fn open_step(s: StateV, tokens: Seq<TokV>, i: int) -> StepV {
    let span = tokens[i].span;
    let k = next_significant(tokens, i + 1);
    if s.stack.len() >= MAX_PARSE_DEPTH {
        StepV::Fatal(parse_diag("maximum nesting depth exceeded (limit: 256)"@, span))
    } else if s.stack.len() > 0 && s.stack.last() is LetDecl && !(k < tokens.len()
        && tokens[k].tok is Let) {
        StepV::Next(pushed(s, let_frame(span)), i + 1)
    } else if k >= tokens.len() {
        StepV::Next(pushed(s, dict_frame(span)), i + 1)
    } else {
        match tokens[k].tok {
            TokenV::Identifier(word) => opened_by_head(s, word, span, tokens, i, k),
            TokenV::Let if !colon_follows(tokens, k) => opened_by_word(
                s,
                let_frame(span),
                tokens,
                i,
            ),
            TokenV::Case if !colon_follows(tokens, k) => opened_by_word(
                s,
                case_frame(span),
                tokens,
                i,
            ),
            _ => StepV::Next(pushed(s, dict_frame(span)), i + 1),
        }
    }
}

fn new_dict(span: &Span) -> (r: StackFrame)
    ensures
        r.deep_view() == dict_frame(span.deep_view()),
{
    broadcast use crate::model::group_models;

    StackFrame::Dict {
        entries: Vec::new(),
        pending_key: None,
        seen_keys: StringHashSet::new(),
        span_start: span.clone(),
        floating_annotation: None,
    }
}

fn new_let(span: &Span) -> (r: StackFrame)
    ensures
        r.deep_view() == let_frame(span.deep_view()),
{
    broadcast use crate::model::group_models;

    StackFrame::LetDecl {
        bindings: Vec::new(),
        pending_key: None,
        pending_rhs: None,
        span_start: span.clone(),
    }
}

fn new_keyword(word: &String, span: &Span) -> (r: Option<StackFrame>)
    ensures
        r.deep_view() == keyword_frame(word@, span.deep_view()),
{
    broadcast use crate::model::group_models;

    if text_is(word, "call") {
        Some(
            StackFrame::Call {
                func: None,
                implied: false,
                args: Vec::new(),
                pending_key: None,
                span_start: span.clone(),
            },
        )
    } else if text_is(word, "type") {
        Some(
            StackFrame::TypeAlias {
                params: Vec::new(),
                type_exprs: Vec::new(),
                pending_key: None,
                span_start: span.clone(),
            },
        )
    } else if text_is(word, "quote") {
        Some(StackFrame::Quote { expr: None, span_start: span.clone() })
    } else if text_is(word, "unquote") {
        Some(StackFrame::Unquote { expr: None, span_start: span.clone() })
    } else if text_is(word, "unquote-splice") {
        Some(StackFrame::UnquoteSplice { expr: None, span_start: span.clone() })
    } else if text_is(word, "syntax-class") {
        Some(
            StackFrame::SyntaxClass {
                name: None,
                pattern: None,
                message: None,
                pending_key: None,
                span_start: span.clone(),
            },
        )
    } else if text_is(word, "match") {
        Some(
            StackFrame::Match {
                scrutinee: None,
                arms: Vec::new(),
                pending_pattern_expr: None,
                pending_pattern: None,
                span_start: span.clone(),
            },
        )
    } else if text_is(word, "class") {
        Some(
            StackFrame::ClassDecl {
                name: None,
                params: Vec::new(),
                methods: Vec::new(),
                pending_key: None,
                structural_metadata: None,
                span_start: span.clone(),
            },
        )
    } else if text_is(word, "instance") {
        Some(
            StackFrame::InstanceDecl {
                class_name: None,
                arms: Vec::new(),
                pending_arm_pattern: None,
                pending_key: None,
                current_arm_methods: Vec::new(),
                span_start: span.clone(),
            },
        )
    } else if text_is(word, "pattern") {
        Some(StackFrame::PatternDecl { bindings: Vec::new(), span_start: span.clone() })
    } else {
        None
    }
}

impl Parser {
    fn open_by_word(
        &mut self,
        frame: StackFrame,
        tokens: &Vec<Spanned<Token>>,
        i: usize,
    ) -> (r: usize)
        requires
            i < tokens@.len(),
            next_significant(tokens.deep_view(), i + 1) < tokens@.len(),
        ensures
            StepV::Next(final(self).deep_view(), r as int) == opened_by_word(
                old(self).deep_view(),
                frame.deep_view(),
                tokens.deep_view(),
                i as int,
            ),
            i < r <= tokens@.len(),
    {
        broadcast use crate::model::group_models;

        let n: usize = tokens.len();
        self.stack.push(frame);
        skip_whitespace_tokens(tokens, i + 1, &mut self.comments) + 1
    }

    fn open_fn(&mut self, tokens: &Vec<Spanned<Token>>, i: usize) -> (r: usize)
        requires
            i < tokens@.len(),
            next_significant(tokens.deep_view(), i + 1) < tokens@.len(),
        ensures
            StepV::Next(final(self).deep_view(), r as int) == opened_fn(
                old(self).deep_view(),
                tokens.deep_view()[i as int].span,
                tokens.deep_view(),
                i as int,
            ),
            i < r <= tokens@.len(),
    {
        broadcast use crate::model::group_models;

        assert(tokens.deep_view()[i as int] == tokens@[i as int].deep_view());
        let frame: StackFrame = StackFrame::Fn {
            params: Vec::new(),
            body: Vec::new(),
            return_ann: None,
            span_start: tokens[i].span.clone(),
            params_consumed: false,
        };
        assert(frame.deep_view() == fn_frame(tokens.deep_view()[i as int].span));
        let n: usize = tokens.len();
        let next: usize = self.open_by_word(frame, tokens, i);
        if immediate_at(tokens, next) {
            assert(tokens.deep_view()[next as int] == tokens@[next as int].deep_view());
            self.stack.push(
                StackFrame::AnnotationCollect {
                    target: AnnotationTarget::FnReturn,
                    value: None,
                    span_start: tokens[next].span.clone(),
                },
            );
            next + 1
        } else {
            next
        }
    }

    fn open_by_head(
        &mut self,
        word: &String,
        tokens: &Vec<Spanned<Token>>,
        i: usize,
        k: usize,
    ) -> (r: usize)
        requires
            i < k < tokens@.len(),
            k == next_significant(tokens.deep_view(), i + 1),
        ensures
            StepV::Next(final(self).deep_view(), r as int) == opened_by_head(
                old(self).deep_view(),
                word@,
                tokens.deep_view()[i as int].span,
                tokens.deep_view(),
                i as int,
                k as int,
            ),
            i < r <= tokens@.len(),
    {
        broadcast use crate::model::group_models;

        assert(tokens.deep_view()[i as int] == tokens@[i as int].deep_view());
        assert(tokens.deep_view()[k as int] == tokens@[k as int].deep_view());
        let span: &Span = &tokens[i].span;
        if has_colon_after(tokens, k) {
            self.stack.push(new_dict(span));
            return i + 1;
        }
        if text_is(word, "fn") {
            return self.open_fn(tokens, i);
        }
        match new_keyword(word, span) {
            Some(f) => self.open_by_word(f, tokens, i),
            None => {
                if has_immediate_at_after(tokens, k) {
                    self.stack.push(new_dict(span));
                    i + 1
                } else {
                    let callee: Arc<SurfaceNode> = mk_var(word.clone(), false, tokens[k].span.clone());
                    let frame: StackFrame = StackFrame::Call {
                        func: Some(callee),
                        implied: true,
                        args: Vec::new(),
                        pending_key: None,
                        span_start: span.clone(),
                    };
                    self.node = Some(tokens[k].span.clone());
                    self.open_by_word(frame, tokens, i)
                }
            },
        }
    }

    /// Handles the opening bracket at place `i`.
    pub fn open_bracket(&mut self, tokens: &Vec<Spanned<Token>>, i: usize) -> (r: Result<
        usize,
        TypeDiagnostic,
    >)
        requires
            i < tokens@.len(),
        ensures
            same_step(
                r,
                final(self).deep_view(),
                open_step(old(self).deep_view(), tokens.deep_view(), i as int),
            ),
            r matches Ok(next) ==> i < next <= tokens@.len(),
    {
        broadcast use crate::model::group_models;

        reveal(open_step);
        assert(tokens.deep_view()[i as int] == tokens@[i as int].deep_view());
        let span: &Span = &tokens[i].span;
        let n: usize = tokens.len();
        let depth: usize = self.stack.len();
        if depth >= MAX_PARSE_DEPTH {
            return Err(
                TypeDiagnostic::error(
                    "parse-error",
                    "maximum nesting depth exceeded (limit: 256)".to_owned(),
                    span.clone(),
                ),
            );
        }
        let head: Option<(&Token, usize)> = peek_next_significant(tokens, i);
        let in_let: bool = if depth > 0 {
            assert(self.stack.deep_view().last() == self.stack@.last().deep_view());
            matches!(&self.stack[depth - 1], StackFrame::LetDecl { .. })
        } else {
            false
        };
        if in_let && !matches!(head, Some((Token::Let, _))) {
            self.stack.push(new_let(span));
            return Ok(i + 1);
        }
        match head {
            Some((Token::Identifier(word), k)) => Ok(self.open_by_head(word, tokens, i, k)),
            Some((Token::Let, k)) => {
                if has_colon_after(tokens, k) {
                    self.stack.push(new_dict(span));
                    Ok(i + 1)
                } else {
                    Ok(self.open_by_word(new_let(span), tokens, i))
                }
            },
            Some((Token::Case, k)) => {
                if has_colon_after(tokens, k) {
                    self.stack.push(new_dict(span));
                    Ok(i + 1)
                } else {
                    let frame: StackFrame = StackFrame::CaseDecl {
                        let_bindings: None,
                        pattern: None,
                        body: Vec::new(),
                        span_start: span.clone(),
                    };
                    assert(frame.deep_view() == case_frame(span.deep_view()));
                    Ok(self.open_by_word(frame, tokens, i))
                }
            },
            _ => {
                self.stack.push(new_dict(span));
                Ok(i + 1)
            },
        }
    }
}

/// A bracket is refused only where `MAX_PARSE_DEPTH` forms are open; else it opens a form and the
/// forms around it stay as they are.
pub proof fn bracket_opens(s: StateV, tokens: Seq<TokV>, i: int)
    ensures
        open_step(s, tokens, i) is Fatal <==> s.stack.len() >= MAX_PARSE_DEPTH,
        open_step(s, tokens, i) matches StepV::Next(t, _) ==> t.stack.len() > s.stack.len()
            && s.stack.is_prefix_of(t.stack),
{
    reveal(open_step);
    match open_step(s, tokens, i) {
        StepV::Next(t, _) => {
            assert(t.stack.subrange(0, s.stack.len() as int) =~= s.stack);
        },
        StepV::Fatal(_) => {},
    }
}

/// Inside `[let ...]` a bracket opens a group of bindings, unless the word behind it is `let` with a
/// colon.
pub proof fn let_holds_groups(s: StateV, tokens: Seq<TokV>, i: int)
    requires
        0 < s.stack.len() < MAX_PARSE_DEPTH,
        s.stack.last() is LetDecl,
        next_significant(tokens, i + 1) < tokens.len() ==> !(tokens[next_significant(
            tokens,
            i + 1,
        )].tok is Let && colon_follows(tokens, next_significant(tokens, i + 1))),
    ensures
        open_step(s, tokens, i) matches StepV::Next(t, _) && t.stack == s.stack.push(
            let_frame(tokens[i].span),
        ),
{
    reveal(open_step);
}

} // verus!
