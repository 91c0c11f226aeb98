//! Annotations read straight off the token stream: those of section headers and placeholders.
use crate::ast::{Annotation, Span, Spanned, SurfaceEntry, SurfaceExpression, SurfaceNode};
use crate::frame::{plain_err, ErrV, ParseError};
use crate::lexer::{describe_token, token_text, TokV, Token, TokenV};
use crate::model::{ann_view, span_between, AnnV, AnnotV, EntryV, ExprV, NodeV, SpanV, Text};
use crate::node::{
    annotation_of, expression_to_annotation, mk, mk_positional, mk_string, mk_var, positional,
    string_node, var_node,
};
use crate::stream::{
    closing_place, immediate_at, is_immediate_at, next_significant, skip_to_closing_bracket,
    skip_whitespace_tokens, skipped, Comments, CommentsV,
};
use std::sync::Arc;
use vstd::prelude::*;

verus! {

/// The expression of a token that can be a value in an annotation dict.
pub open spec fn plain_value(t: TokV) -> Option<NodeV> {
    match t.tok {
        TokenV::Identifier(name) => Some(var_node(name, false, t.span)),
        TokenV::StringLiteral { prefix, delimiter, content } => Some(
            NodeV { expr: ExprV::StringLiteral { prefix, delimiter, content }, span: t.span },
        ),
        TokenV::Int(n) => Some(NodeV { expr: ExprV::Int(n), span: t.span }),
        TokenV::Float(s) => Some(NodeV { expr: ExprV::Float(s), span: t.span }),
        _ => None,
    }
}

/// The key text of an entry that a colon turns into a key.
pub open spec fn property_key(value: NodeV) -> NodeV {
    string_node(
        match value.expr {
            ExprV::VarRef { name, .. } => name,
            ExprV::StringLiteral { content, .. } => content,
            _ => Seq::empty(),
        },
        value.span,
    )
}

/// The entries with the value of the last replaced, its region extended to the value's end.
pub open spec fn replace_last_value(entries: Seq<EntryV>, value: NodeV) -> Seq<EntryV> {
    if entries.len() == 0 {
        entries
    } else {
        entries.drop_last().push(
            EntryV {
                key: entries.last().key,
                value,
                span: SpanV {
                    end_line: value.span.end_line,
                    end_col: value.span.end_col,
                    ..entries.last().span
                },
            },
        )
    }
}

/// Why something cannot be read, with the comments up to there.
pub struct UnreadV {
    pub err: ErrV,
    pub comments: CommentsV,
}

/// An error without a help line, with the comments up to it.
pub open spec fn unread(message: Text, span: SpanV, comments: CommentsV) -> UnreadV {
    UnreadV { err: plain_err(message, span), comments }
}

/// An annotation dict that is read up to its closing bracket.
pub struct DictReadV {
    pub entries: Seq<EntryV>,
    pub span: SpanV,
    pub next: int,
    pub comments: CommentsV,
}

/// What a token makes of an annotation dict.
pub enum DictStepV {
    /// The dict goes on with these entries; `waiting` tells that a key waits for its value.
    More { entries: Seq<EntryV>, waiting: bool },
    /// The token closes the dict.
    Done,
    /// A key is left without a value.
    Missing,
}

/// The entries with one more value: that of the key that waits, or one without a key.
pub open spec fn with_value(entries: Seq<EntryV>, waiting: bool, value: NodeV) -> Seq<EntryV> {
    if waiting {
        replace_last_value(entries, value)
    } else {
        entries.push(positional(value))
    }
}

/// The value that inner brackets are in an annotation dict. What stands in them is not read: the
/// value is an empty dict with their region.
pub open spec fn opaque_value(open: SpanV, close: SpanV) -> NodeV {
    NodeV { expr: ExprV::Dict(Seq::empty()), span: span_between(open, close, open.file) }
}

/// What a token other than an opening bracket makes of an annotation dict.
#[verifier::opaque]
pub open spec fn dict_step(t: TokV, entries: Seq<EntryV>, waiting: bool) -> DictStepV {
    match plain_value(t) {
        Some(value) => DictStepV::More {
            entries: with_value(entries, waiting, value),
            waiting: false,
        },
        None => match t.tok {
            TokenV::CloseBracket => if waiting {
                DictStepV::Missing
            } else {
                DictStepV::Done
            },
            TokenV::Colon => if entries.len() > 0 && entries.last().key is None {
                DictStepV::More {
                    entries: entries.drop_last().push(
                        EntryV {
                            key: Some(property_key(entries.last().value)),
                            ..entries.last()
                        },
                    ),
                    waiting: true,
                }
            } else {
                DictStepV::More { entries, waiting }
            },
            _ => if waiting {
                DictStepV::Missing
            } else {
                DictStepV::More { entries, waiting }
            },
        },
    }
}

/// Reads an annotation dict from place `i` on, with the entries so far. Inner brackets are one
/// value.
pub open spec fn dict_from(
    tokens: Seq<TokV>,
    start: SpanV,
    i: int,
    entries: Seq<EntryV>,
    waiting: bool,
    comments: CommentsV,
) -> Result<DictReadV, UnreadV>
    decreases tokens.len() - i,
{
    let j = next_significant(tokens, i);
    let c = skipped(tokens, i, comments);
    let close = closing_place(tokens, j + 1, 1);
    if i < 0 || j < i || j >= tokens.len() {
        Err(unread("unclosed bracket in property dict annotation"@, start, c))
    } else if tokens[j].tok is OpenBracket {
        if j < close < tokens.len() {
            dict_from(
                tokens,
                start,
                close + 1,
                with_value(entries, waiting, opaque_value(tokens[j].span, tokens[close].span)),
                false,
                c,
            )
        } else {
            Err(unread("unclosed bracket in property dict annotation"@, start, c))
        }
    } else {
        match dict_step(tokens[j], entries, waiting) {
            DictStepV::More { entries, waiting } => dict_from(
                tokens,
                start,
                j + 1,
                entries,
                waiting,
                c,
            ),
            DictStepV::Done => Ok(
                DictReadV {
                    entries,
                    span: span_between(start, tokens[j].span, start.file),
                    next: j + 1,
                    comments: c,
                },
            ),
            DictStepV::Missing => Err(
                unread(
                    "missing value after `:` in property dict annotation"@,
                    tokens[j].span,
                    c,
                ),
            ),
        }
    }
}

/// An annotation that is read.
pub struct AnnReadV {
    pub ann: AnnotV,
    pub next: int,
    pub comments: CommentsV,
}

/// The annotation `@Name` or `@[...]`, possibly with another right behind it, whose sign stands at
/// place `i`.
pub open spec fn annotation_at(tokens: Seq<TokV>, i: int, comments: CommentsV) -> Result<
    AnnReadV,
    UnreadV,
>
    decreases tokens.len() - i,
{
    let j = next_significant(tokens, i + 1);
    let c = skipped(tokens, i + 1, comments);
    if i < 0 || i >= tokens.len() || !(tokens[i].tok is At || tokens[i].tok is ImmediateAt) {
        Err(unread("expected @ to start annotation"@, tokens[i].span, comments))
    } else if j <= i || j >= tokens.len() {
        Err(unread("unexpected end of input after @"@, tokens[i].span, c))
    } else {
        let at = tokens[j].span;
        match tokens[j].tok {
            TokenV::Identifier(name) => if is_immediate_at(tokens, j + 1) {
                match annotation_at(tokens, j + 1, c) {
                    Ok(inner) => Ok(
                        AnnReadV {
                            ann: AnnotV {
                                ann: AnnV::Annotated(
                                    Box::new(AnnV::Simple(name)),
                                    Box::new(inner.ann.ann),
                                ),
                                span: span_between(at, inner.ann.span, at.file),
                            },
                            next: inner.next,
                            comments: inner.comments,
                        },
                    ),
                    Err(e) => Err(e),
                }
            } else {
                Ok(
                    AnnReadV {
                        ann: AnnotV { ann: annotation_of(var_node(name, false, at)), span: at },
                        next: j + 1,
                        comments: c,
                    },
                )
            },
            TokenV::OpenBracket => match dict_from(tokens, at, j + 1, Seq::empty(), false, c) {
                Err(e) => Err(e),
                Ok(d) => if i < d.next && is_immediate_at(tokens, d.next) {
                    match annotation_at(tokens, d.next, d.comments) {
                        Ok(inner) => Ok(
                            AnnReadV {
                                ann: AnnotV {
                                    ann: AnnV::Annotated(
                                        Box::new(AnnV::PropertyDict(d.entries)),
                                        Box::new(inner.ann.ann),
                                    ),
                                    span: span_between(at, inner.ann.span, at.file),
                                },
                                next: inner.next,
                                comments: inner.comments,
                            },
                        ),
                        Err(e) => Err(e),
                    }
                } else {
                    Ok(
                        AnnReadV {
                            ann: AnnotV { ann: AnnV::PropertyDict(d.entries), span: d.span },
                            next: d.next,
                            comments: d.comments,
                        },
                    )
                },
            },
            t => Err(
                unread(
                    "expected annotation name or '[' after @, found "@ + token_text(t),
                    at,
                    c,
                ),
            ),
        }
    }
}

/// A dict in an annotation ends behind the place where its reading starts.
pub proof fn dict_advances(
    tokens: Seq<TokV>,
    start: SpanV,
    i: int,
    entries: Seq<EntryV>,
    waiting: bool,
    comments: CommentsV,
)
    ensures
        dict_from(tokens, start, i, entries, waiting, comments) matches Ok(d) ==> i < d.next
            <= tokens.len(),
    decreases tokens.len() - i,
{
    let j = next_significant(tokens, i);
    let c = skipped(tokens, i, comments);
    let close = closing_place(tokens, j + 1, 1);
    if 0 <= i <= j < tokens.len() {
        if tokens[j].tok is OpenBracket {
            if j < close < tokens.len() {
                let value = opaque_value(tokens[j].span, tokens[close].span);
                dict_advances(
                    tokens,
                    start,
                    close + 1,
                    with_value(entries, waiting, value),
                    false,
                    c,
                );
            }
        } else {
            match dict_step(tokens[j], entries, waiting) {
                DictStepV::More { entries, waiting } => {
                    dict_advances(tokens, start, j + 1, entries, waiting, c);
                },
                _ => {},
            }
        }
    }
}

/// An annotation ends behind its sign.
pub proof fn annotation_advances(tokens: Seq<TokV>, i: int, comments: CommentsV)
    ensures
        annotation_at(tokens, i, comments) matches Ok(read) ==> i < read.next <= tokens.len(),
    decreases tokens.len() - i,
{
    let j = next_significant(tokens, i + 1);
    let c = skipped(tokens, i + 1, comments);
    if 0 <= i < tokens.len() && i < j < tokens.len() {
        match tokens[j].tok {
            TokenV::Identifier(_) => if is_immediate_at(tokens, j + 1) {
                annotation_advances(tokens, j + 1, c);
            },
            TokenV::OpenBracket => {
                dict_advances(tokens, tokens[j].span, j + 1, Seq::empty(), false, c);
                match dict_from(tokens, tokens[j].span, j + 1, Seq::empty(), false, c) {
                    Ok(d) => if i < d.next && is_immediate_at(tokens, d.next) {
                        annotation_advances(tokens, d.next, d.comments);
                    },
                    _ => {},
                }
            },
            _ => {},
        }
    }
}

/// The expression of a token that can be a plain value.
pub fn token_value(t: &Spanned<Token>) -> (r: Option<Arc<SurfaceNode>>)
    ensures
        r.deep_view() == plain_value(t.deep_view()),
{
    match &t.node {
        Token::Identifier(name) => Some(mk_var(name.clone(), false, t.span.clone())),
        Token::StringLiteral { prefix, delimiter, content } => Some(
            mk(
                SurfaceExpression::StringLiteral {
                    prefix: prefix.clone(),
                    delimiter: delimiter.clone(),
                    content: content.clone(),
                },
                t.span.clone(),
            ),
        ),
        Token::Int(n) => Some(mk(SurfaceExpression::Int(*n), t.span.clone())),
        Token::Float(s) => Some(mk(SurfaceExpression::Float(s.clone()), t.span.clone())),
        _ => None,
    }
}

fn mk_property_key(value: &Arc<SurfaceNode>) -> (r: Arc<SurfaceNode>)
    ensures
        r.deep_view() == property_key(value.deep_view()),
{
    let text: String = match &value.expr {
        SurfaceExpression::VarRef { name, .. } => name.clone(),
        SurfaceExpression::StringLiteral { content, .. } => content.clone(),
        _ => String::new(),
    };
    mk_string(text, value.span.clone())
}

fn set_last_value(entries: &mut Vec<Spanned<SurfaceEntry>>, value: Arc<SurfaceNode>)
    ensures
        final(entries).deep_view() == replace_last_value(
            old(entries).deep_view(),
            value.deep_view(),
        ),
{
    broadcast use crate::model::group_models;

    let ghost all = entries.deep_view();
    match entries.pop() {
        Some(last) => {
            assert(all.last() == last.deep_view());
            let mut span: Span = last.span;
            span.end_line = value.span.end_line;
            span.end_col = value.span.end_col;
            entries.push(Spanned { node: SurfaceEntry { key: last.node.key, value }, span });
        },
        None => {},
    }
}

fn mk_opaque(open: &Span, close: &Span) -> (r: Arc<SurfaceNode>)
    ensures
        r.deep_view() == opaque_value(open.deep_view(), close.deep_view()),
{
    broadcast use crate::model::group_models;

    mk(SurfaceExpression::Dict(Vec::new()), Span::between(open, close, &open.file))
}

/// A dict of properties with its region, and the place behind it.
pub struct DictRead {
    pub entries: Vec<Spanned<SurfaceEntry>>,
    pub span: Span,
    pub next: usize,
}

/// The state of an annotation dict: its entries, and whether a key waits for its value.
struct OpenDict {
    entries: Vec<Spanned<SurfaceEntry>>,
    waiting: bool,
}

enum DictOutcome {
    More,
    Done,
    Missing,
}

impl OpenDict {
    fn take(&mut self, value: Arc<SurfaceNode>)
        ensures
            final(self).entries.deep_view() == with_value(
                old(self).entries.deep_view(),
                old(self).waiting,
                value.deep_view(),
            ),
            !final(self).waiting,
    {
        broadcast use crate::model::group_models;

        if self.waiting {
            set_last_value(&mut self.entries, value);
            self.waiting = false;
        } else {
            self.entries.push(mk_positional(value));
        }
    }

    fn step(&mut self, t: &Spanned<Token>) -> (r: DictOutcome)
        ensures
            match dict_step(t.deep_view(), old(self).entries.deep_view(), old(self).waiting) {
                DictStepV::More { entries, waiting } => {
                    &&& r is More
                    &&& final(self).entries.deep_view() == entries
                    &&& final(self).waiting == waiting
                },
                DictStepV::Done => r is Done && final(self).entries.deep_view() == old(
                    self,
                ).entries.deep_view(),
                DictStepV::Missing => r is Missing,
            },
    {
        broadcast use crate::model::group_models;

        reveal(dict_step);
        let ghost listed = self.entries.deep_view();
        match token_value(t) {
            Some(value) => {
                self.take(value);
                DictOutcome::More
            },
            None => match &t.node {
                Token::CloseBracket => {
                    if self.waiting {
                        DictOutcome::Missing
                    } else {
                        DictOutcome::Done
                    }
                },
                Token::Colon => {
                    match self.entries.pop() {
                        Some(last) => {
                            assert(listed.last() == last.deep_view());
                            assert(listed.drop_last().push(listed.last()) =~= listed);
                            if last.node.key.is_none() {
                                let key: Arc<SurfaceNode> = mk_property_key(&last.node.value);
                                self.entries.push(
                                    Spanned {
                                        node: SurfaceEntry {
                                            key: Some(key),
                                            value: last.node.value,
                                        },
                                        span: last.span,
                                    },
                                );
                                self.waiting = true;
                            } else {
                                self.entries.push(last);
                            }
                        },
                        None => {},
                    }
                    DictOutcome::More
                },
                _ => if self.waiting {
                    DictOutcome::Missing
                } else {
                    DictOutcome::More
                },
            },
        }
    }
}

/// Reads the annotation dict whose opening bracket stands at place `start`.
pub fn parse_bracket_annotation_dict(
    tokens: &Vec<Spanned<Token>>,
    start: usize,
    comments: &mut Comments,
) -> (r: Result<DictRead, ParseError>)
    requires
        start < tokens@.len(),
    ensures
        match (
            r,
            dict_from(
                tokens.deep_view(),
                tokens.deep_view()[start as int].span,
                start + 1,
                Seq::empty(),
                false,
                old(comments).deep_view(),
            ),
        ) {
            (Ok(d), Ok(m)) => {
                &&& d.entries.deep_view() == m.entries
                &&& d.span.deep_view() == m.span
                &&& d.next == m.next
                &&& final(comments).deep_view() == m.comments
                &&& start + 1 < d.next <= tokens@.len()
            },
            (Err(e), Err(m)) => e.deep_view() == m.err && final(comments).deep_view() == m.comments,
            _ => false,
        },
{
    let ghost ts = tokens.deep_view();
    let n: usize = tokens.len();
    let start_span: Span = tokens[start].span.clone();
    assert(ts[start as int] == tokens@[start as int].deep_view());
    let ghost whole = dict_from(
        ts,
        start_span.deep_view(),
        start + 1,
        Seq::empty(),
        false,
        comments.deep_view(),
    );
    let mut dict: OpenDict = OpenDict { entries: Vec::new(), waiting: false };
    assert(dict.entries.deep_view() =~= Seq::<EntryV>::empty());
    let mut i: usize = start + 1;
    while i < n
        invariant
            start < i <= n,
            n == tokens@.len(),
            ts == tokens.deep_view(),
            start < n,
            start_span.deep_view() == ts[start as int].span,
            whole == dict_from(
                ts,
                ts[start as int].span,
                start + 1,
                Seq::empty(),
                false,
                old(comments).deep_view(),
            ),
            dict_from(
                ts,
                start_span.deep_view(),
                i as int,
                dict.entries.deep_view(),
                dict.waiting,
                comments.deep_view(),
            ) == whole,
        decreases n - i,
    {
        let j: usize = skip_whitespace_tokens(tokens, i, comments);
        if j >= n {
            return Err(
                ParseError::plain("unclosed bracket in property dict annotation", &start_span),
            );
        }
        assert(ts[j as int] == tokens@[j as int].deep_view());
        if matches!(tokens[j].node, Token::OpenBracket) {
            let close: usize = skip_to_closing_bracket(tokens, j + 1);
            if close >= n {
                return Err(
                    ParseError::plain("unclosed bracket in property dict annotation", &start_span),
                );
            }
            assert(ts[close as int] == tokens@[close as int].deep_view());
            dict.take(mk_opaque(&tokens[j].span, &tokens[close].span));
            i = close + 1;
            continue;
        }
        match dict.step(&tokens[j]) {
            DictOutcome::More => {},
            DictOutcome::Done => {
                let span: Span = Span::between(&start_span, &tokens[j].span, &start_span.file);
                return Ok(DictRead { entries: dict.entries, span, next: j + 1 });
            },
            DictOutcome::Missing => {
                return Err(
                    ParseError::plain(
                        "missing value after `:` in property dict annotation",
                        &tokens[j].span,
                    ),
                );
            },
        }
        i = j + 1;
    }
    assert(next_significant(ts, i as int) == i);
    reveal(skipped);
    Err(ParseError::plain("unclosed bracket in property dict annotation", &start_span))
}

/// Whether the outcome of reading an annotation is what its model says.
pub open spec fn same_annotation(
    r: Result<(Spanned<Annotation>, usize), ParseError>,
    after: CommentsV,
    m: Result<AnnReadV, UnreadV>,
) -> bool {
    match (r, m) {
        (Ok((ann, next)), Ok(v)) => ann.deep_view() == v.ann && next == v.next && after
            == v.comments,
        (Err(e), Err(v)) => e.deep_view() == v.err && after == v.comments,
        _ => false,
    }
}

/// Reads the annotation whose sign stands at place `start`. Returns it with the place behind it.
pub fn parse_annotation_direct(
    tokens: &Vec<Spanned<Token>>,
    start: usize,
    comments: &mut Comments,
) -> (r: Result<(Spanned<Annotation>, usize), ParseError>)
    requires
        start < tokens@.len(),
    ensures
        same_annotation(
            r,
            final(comments).deep_view(),
            annotation_at(tokens.deep_view(), start as int, old(comments).deep_view()),
        ),
        r matches Ok((_, next)) ==> start < next <= tokens@.len(),
    decreases tokens@.len() - start,
{
    broadcast use crate::model::group_models;

    let ghost ts = tokens.deep_view();
    let n: usize = tokens.len();
    assert(ts[start as int] == tokens@[start as int].deep_view());
    match &tokens[start].node {
        Token::At | Token::ImmediateAt => {},
        _ => {
            return Err(ParseError::plain("expected @ to start annotation", &tokens[start].span));
        },
    }
    let j: usize = skip_whitespace_tokens(tokens, start + 1, comments);
    if j >= n {
        return Err(ParseError::plain("unexpected end of input after @", &tokens[start].span));
    }
    assert(ts[j as int] == tokens@[j as int].deep_view());
    match &tokens[j].node {
        Token::Identifier(name) => {
            let name_span: Span = tokens[j].span.clone();
            if immediate_at(tokens, j + 1) {
                let (inner, next) = match parse_annotation_direct(tokens, j + 1, comments) {
                    Ok(p) => p,
                    Err(e) => {
                        return Err(e);
                    },
                };
                let span: Span = Span::between(&name_span, &inner.span, &name_span.file);
                let outer: Annotation = Annotation::Simple(name.clone());
                assert(ann_view(outer) == AnnV::Simple(name@));
                Ok(
                    (
                        Spanned {
                            node: Annotation::Annotated(Box::new(outer), Box::new(inner.node)),
                            span,
                        },
                        next,
                    ),
                )
            } else {
                let node: Arc<SurfaceNode> = mk_var(name.clone(), false, name_span.clone());
                Ok((Spanned { node: expression_to_annotation(&node), span: name_span }, j + 1))
            }
        },
        Token::OpenBracket => {
            let open_span: Span = tokens[j].span.clone();
            let d: DictRead = match parse_bracket_annotation_dict(tokens, j, comments) {
                Ok(d) => d,
                Err(e) => {
                    return Err(e);
                },
            };
            let outer: Annotation = Annotation::PropertyDict(d.entries);
            assert(ann_view(outer) == AnnV::PropertyDict(d.entries.deep_view()));
            if immediate_at(tokens, d.next) {
                let (inner, next) = match parse_annotation_direct(tokens, d.next, comments) {
                    Ok(p) => p,
                    Err(e) => {
                        return Err(e);
                    },
                };
                let span: Span = Span::between(&open_span, &inner.span, &open_span.file);
                Ok(
                    (
                        Spanned {
                            node: Annotation::Annotated(Box::new(outer), Box::new(inner.node)),
                            span,
                        },
                        next,
                    ),
                )
            } else {
                Ok((Spanned { node: outer, span: d.span }, d.next))
            }
        },
        t => {
            let mut message: String = "expected annotation name or '[' after @, found ".to_owned();
            message.append(describe_token(t).as_str());
            Err(ParseError::plain(message.as_str(), &tokens[j].span))
        },
    }
}

} // verus!
