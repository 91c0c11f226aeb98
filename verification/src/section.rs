//! The document separator `---` and the section header behind it.
use crate::ast::{
    Annotation, Span, Spanned, SurfaceDocument, SurfaceEntry, SurfaceExpression, SurfaceItem,
    SurfaceNode,
};
use crate::diagnostic::{parse_diag, DiagV, TypeDiagnostic};
use crate::direct::{
    annotation_advances, annotation_at, parse_annotation_direct, plain_value, token_value,
};
use crate::frame::diag_of;
use crate::header::{entry_put, header_insert, new_header};
use crate::lexer::{describe_token, token_text, TokV, Token, TokenV};
use crate::model::{span_between, AnnotV, DocumentV, EntryV, ExprV, ItemV, NodeV, SpanV, Text};
use crate::node::{mk, mk_positional, mk_string, positional, string_node};
use crate::state::{same_step, Parser, StateV, StepV};
use crate::stream::{immediate_at, is_immediate_at, Comments, CommentsV};
use crate::text::{chars_of, join3, slice_text};
use indexmap::IndexMap;
use std::sync::Arc;
use vstd::prelude::*;

verus! {

/// The region of an item.
pub open spec fn item_span(item: ItemV) -> SpanV {
    match item {
        ItemV::Expr(n) => n.span,
        ItemV::Decl(_, span) => span,
    }
}

/// The region of a document that a separator ends: from its first item to its last, or that of the
/// separator.
pub open spec fn document_span(items: Seq<ItemV>, separator: SpanV) -> SpanV {
    if items.len() == 0 {
        separator
    } else {
        span_between(
            item_span(items.first()),
            item_span(items.last()),
            item_span(items.first()).file,
        )
    }
}

/// The state after the current document is complete.
pub open spec fn document_ended(s: StateV, span: SpanV) -> StateV {
    StateV {
        documents: s.documents.push(DocumentV { header: s.header, items: s.items, span }),
        items: Seq::empty(),
        header: Seq::empty(),
        ..s
    }
}

/// An annotation as an expression: it annotates an empty dict.
pub open spec fn annotation_node(ann: AnnotV, at: SpanV) -> NodeV {
    NodeV {
        expr: ExprV::TypeAssert {
            annotation: Box::new(ann),
            expr: Box::new(NodeV { expr: ExprV::Dict(Seq::empty()), span: at }),
        },
        span: span_between(at, ann.span, at.file),
    }
}

/// A step of reading the value of a header key: the open dicts, each with its entries and where it
/// was opened; or the value; or an error.
pub enum ValueStepV {
    More(Seq<(Seq<EntryV>, SpanV)>, int, CommentsV),
    Found(NodeV, int, CommentsV),
    Failed(DiagV),
}

/// A complete value inside the open dicts: it is the value of the key where none is open.
pub open spec fn value_taken(
    open: Seq<(Seq<EntryV>, SpanV)>,
    node: NodeV,
    next: int,
    comments: CommentsV,
) -> ValueStepV {
    if open.len() == 0 {
        ValueStepV::Found(node, next, comments)
    } else {
        ValueStepV::More(
            open.drop_last().push((open.last().0.push(positional(node)), open.last().1)),
            next,
            comments,
        )
    }
}

/// What the token at place `i` adds to the value of the header key `key`, which starts at place
/// `start`. A colon turns the last value of a dict into a key.
pub open spec fn value_step(
    tokens: Seq<TokV>,
    key: Text,
    start: int,
    i: int,
    open: Seq<(Seq<EntryV>, SpanV)>,
    comments: CommentsV,
) -> ValueStepV {
    let at = tokens[i].span;
    match plain_value(tokens[i]) {
        Some(node) => value_taken(open, node, i + 1, comments),
        None => match tokens[i].tok {
            TokenV::Newline | TokenV::Semicolon => ValueStepV::Failed(
                parse_diag(
                    "failed to parse value for header key '"@ + key + "'"@,
                    tokens[start].span,
                ),
            ),
            TokenV::OpenBracket => ValueStepV::More(
                open.push((Seq::empty(), at)),
                i + 1,
                comments,
            ),
            TokenV::CloseBracket => if open.len() == 0 {
                ValueStepV::Failed(parse_diag("unexpected ']' in header value"@, at))
            } else {
                value_taken(
                    open.drop_last(),
                    NodeV {
                        expr: ExprV::Dict(open.last().0),
                        span: span_between(open.last().1, at, at.file),
                    },
                    i + 1,
                    comments,
                )
            },
            TokenV::Colon => if open.len() > 0 && open.last().0.len() > 0
                && open.last().0.last().key is None {
                let last = open.last().0.last();
                ValueStepV::More(
                    open.drop_last().push(
                        (
                            open.last().0.drop_last().push(
                                EntryV { key: Some(last.value), ..last },
                            ),
                            open.last().1,
                        ),
                    ),
                    i + 1,
                    comments,
                )
            } else {
                ValueStepV::Failed(parse_diag("unexpected ':' in header value"@, at))
            },
            TokenV::At | TokenV::ImmediateAt => match annotation_at(tokens, i, comments) {
                Err(e) => ValueStepV::Failed(diag_of(e.err)),
                Ok(read) => value_taken(
                    open,
                    annotation_node(read.ann, at),
                    read.next,
                    read.comments,
                ),
            },
            t => ValueStepV::Failed(
                parse_diag("unsupported token in header value: "@ + token_text(t), at),
            ),
        },
    }
}

/// The value of a header key.
pub struct HeaderValueV {
    pub node: NodeV,
    pub next: int,
    pub comments: CommentsV,
}

/// A step of reading a header value goes forward.
pub proof fn value_step_advances(
    tokens: Seq<TokV>,
    key: Text,
    start: int,
    i: int,
    open: Seq<(Seq<EntryV>, SpanV)>,
    comments: CommentsV,
)
    requires
        0 <= i < tokens.len(),
    ensures
        value_step(tokens, key, start, i, open, comments) matches ValueStepV::More(_, next, _)
            ==> i < next <= tokens.len(),
        value_step(tokens, key, start, i, open, comments) matches ValueStepV::Found(_, next, _)
            ==> i < next <= tokens.len(),
{
    annotation_advances(tokens, i, comments);
}

/// Reads the value of a header key from place `i` on, inside the open dicts.
pub open spec fn value_from(
    tokens: Seq<TokV>,
    key: Text,
    start: int,
    i: int,
    open: Seq<(Seq<EntryV>, SpanV)>,
    comments: CommentsV,
) -> Result<HeaderValueV, DiagV>
    decreases tokens.len() - i,
    via value_from_ends
{
    if i < 0 || i >= tokens.len() {
        Err(
            parse_diag(
                "unexpected end of input while parsing header value for '"@ + key + "'"@,
                tokens[i - 1].span,
            ),
        )
    } else {
        match value_step(tokens, key, start, i, open, comments) {
            ValueStepV::More(open, next, comments) => value_from(
                tokens,
                key,
                start,
                next,
                open,
                comments,
            ),
            ValueStepV::Found(node, next, comments) => Ok(HeaderValueV { node, next, comments }),
            ValueStepV::Failed(d) => Err(d),
        }
    }
}

#[via_fn]
proof fn value_from_ends(
    tokens: Seq<TokV>,
    key: Text,
    start: int,
    i: int,
    open: Seq<(Seq<EntryV>, SpanV)>,
    comments: CommentsV,
) {
    if 0 <= i < tokens.len() {
        value_step_advances(tokens, key, start, i, open, comments);
    }
}

proof fn value_advances(
    tokens: Seq<TokV>,
    key: Text,
    start: int,
    i: int,
    open: Seq<(Seq<EntryV>, SpanV)>,
    comments: CommentsV,
)
    ensures
        value_from(tokens, key, start, i, open, comments) matches Ok(v) ==> i < v.next
            <= tokens.len(),
    decreases tokens.len() - i,
{
    if 0 <= i < tokens.len() {
        value_step_advances(tokens, key, start, i, open, comments);
        match value_step(tokens, key, start, i, open, comments) {
            ValueStepV::More(open, next, comments) => {
                value_advances(tokens, key, start, next, open, comments);
            },
            _ => {},
        }
    }
}

/// A text without the percent signs at its start.
pub open spec fn without_percents(s: Text) -> Text
    decreases s.len(),
{
    if s.len() > 0 && s[0] == '%' {
        without_percents(s.skip(1))
    } else {
        s
    }
}

/// A step of reading a section header.
pub enum HeaderStepV {
    More(StateV, int),
    Done(StateV, int),
    Failed(DiagV),
}

/// The name `%name` of a section, at place `i`: it is new in the file, and an annotation right
/// behind it is that of the section's output.
pub open spec fn section_named(s: StateV, word: Text, tokens: Seq<TokV>, i: int) -> HeaderStepV {
    let span = tokens[i].span;
    let name = without_percents(word);
    let annotated = is_immediate_at(tokens, i + 1);
    if name.len() == 0 {
        HeaderStepV::Failed(
            parse_diag(
                if annotated {
                    "bare '%' in section header: expected a name after '%' (e.g. '--- %name' or '--- %name@Type')"@
                } else {
                    "bare '%' in section header: expected a name after '%' (e.g. '--- %name')"@
                },
                span,
            ),
        )
    } else if s.sections.contains(name) {
        HeaderStepV::Failed(
            parse_diag("duplicate section name '%"@ + name + "' in file"@, span),
        )
    } else {
        let named = StateV {
            sections: s.sections.insert(name),
            header: entry_put(s.header, "name"@, string_node(name, span)),
            ..s
        };
        if annotated {
            match annotation_at(tokens, i + 1, s.comments) {
                Err(e) => HeaderStepV::Failed(diag_of(e.err)),
                Ok(read) => HeaderStepV::More(
                    StateV {
                        header: entry_put(
                            named.header,
                            "output-annotation"@,
                            annotation_node(read.ann, tokens[i + 1].span),
                        ),
                        comments: read.comments,
                        ..named
                    },
                    read.next,
                ),
            }
        } else {
            HeaderStepV::More(named, i + 1)
        }
    }
}

/// Whether a token is there and is a colon.
pub open spec fn is_colon(tokens: Seq<TokV>, i: int) -> bool {
    0 <= i < tokens.len() && tokens[i].tok is Colon
}

/// The key `key` at place `i` with its value.
pub open spec fn header_keyed(s: StateV, key: Text, tokens: Seq<TokV>, i: int) -> HeaderStepV {
    if !is_colon(tokens, i + 1) {
        HeaderStepV::Failed(
            parse_diag(
                "expected ':' after '"@ + key + "' in header"@,
                if i + 1 < tokens.len() {
                    tokens[i + 1].span
                } else {
                    tokens[i].span
                },
            ),
        )
    } else if i + 2 >= tokens.len() {
        HeaderStepV::Failed(
            parse_diag("expected value after '"@ + key + ":' in header"@, tokens[i + 1].span),
        )
    } else {
        match value_from(tokens, key, i + 2, i + 2, Seq::empty(), s.comments) {
            Err(d) => HeaderStepV::Failed(d),
            Ok(v) => HeaderStepV::More(
                StateV {
                    header: entry_put(s.header, key, v.node),
                    comments: v.comments,
                    ..s
                },
                v.next,
            ),
        }
    }
}

/// What the token at place `i` of a section header leads to.
pub open spec fn header_step(s: StateV, tokens: Seq<TokV>, i: int) -> HeaderStepV {
    match tokens[i].tok {
        TokenV::Newline | TokenV::Semicolon => HeaderStepV::Done(s, i + 1),
        TokenV::Identifier(word) => if word.len() > 0 && word[0] == '%' && !is_colon(
            tokens,
            i + 1,
        ) {
            section_named(s, word, tokens, i)
        } else {
            header_keyed(s, word, tokens, i)
        },
        t => HeaderStepV::Failed(
            parse_diag("unexpected token in section header: "@ + token_text(t), tokens[i].span),
        ),
    }
}

/// A step of reading a section header goes forward.
pub proof fn header_step_advances(s: StateV, tokens: Seq<TokV>, i: int)
    requires
        0 <= i < tokens.len(),
    ensures
        header_step(s, tokens, i) matches HeaderStepV::More(_, next) ==> i < next <= tokens.len(),
{
    annotation_advances(tokens, i + 1, s.comments);
    match tokens[i].tok {
        TokenV::Identifier(word) => {
            value_advances(tokens, word, i + 2, i + 2, Seq::empty(), s.comments);
        },
        _ => {},
    }
}

/// Reads the section header from place `i` to the end of its line.
pub open spec fn header_from(s: StateV, tokens: Seq<TokV>, i: int) -> StepV
    decreases tokens.len() - i,
    via header_from_ends
{
    if i < 0 || i >= tokens.len() {
        StepV::Next(s, i)
    } else {
        match header_step(s, tokens, i) {
            HeaderStepV::More(s, next) => header_from(s, tokens, next),
            HeaderStepV::Done(s, next) => StepV::Next(s, next),
            HeaderStepV::Failed(d) => StepV::Fatal(d),
        }
    }
}

#[via_fn]
proof fn header_from_ends(s: StateV, tokens: Seq<TokV>, i: int) {
    if 0 <= i < tokens.len() {
        header_step_advances(s, tokens, i);
    }
}

/// A section header does not end before the place where it starts.
pub proof fn header_advances(s: StateV, tokens: Seq<TokV>, i: int)
    requires
        0 <= i <= tokens.len(),
    ensures
        header_from(s, tokens, i) matches StepV::Next(_, next) ==> i <= next <= tokens.len(),
    decreases tokens.len() - i,
{
    if i < tokens.len() {
        header_step_advances(s, tokens, i);
        match header_step(s, tokens, i) {
            HeaderStepV::More(after, next) => header_advances(after, tokens, next),
            _ => {},
        }
    }
}

/// What the document separator at place `i` leads to.
#[verifier::opaque]
pub open spec fn separator_step(s: StateV, tokens: Seq<TokV>, i: int) -> StepV {
    let span = tokens[i].span;
    if s.stack.len() > 0 {
        StepV::Fatal(
            parse_diag("document separator cannot appear inside bracket expressions"@, span),
        )
    } else {
        header_from(document_ended(s, document_span(s.items, span)), tokens, i + 1)
    }
}

fn region_of(item: &SurfaceItem) -> (r: &Span)
    ensures
        r.deep_view() == item_span(item.deep_view()),
{
    match item {
        SurfaceItem::Expr(n) => &n.span,
        SurfaceItem::Decl(d) => &d.span,
    }
}

fn region_of_items(items: &Vec<SurfaceItem>, separator: &Span) -> (r: Span)
    ensures
        r.deep_view() == document_span(items.deep_view(), separator.deep_view()),
{
    let n: usize = items.len();
    if n == 0 {
        separator.clone()
    } else {
        assert(items.deep_view().first() == items@.first().deep_view());
        assert(items.deep_view().last() == items@.last().deep_view());
        let first: &Span = region_of(&items[0]);
        Span::between(first, region_of(&items[n - 1]), &first.file)
    }
}

fn mk_annotation(annotation: Spanned<Annotation>, at: &Span) -> (r: Arc<SurfaceNode>)
    ensures
        r.deep_view() == annotation_node(annotation.deep_view(), at.deep_view()),
{
    broadcast use crate::model::group_models;

    let span: Span = Span::between(at, &annotation.span, &at.file);
    let inner: Arc<SurfaceNode> = mk(SurfaceExpression::Dict(Vec::new()), at.clone());
    assert(inner.deep_view() == (NodeV {
        expr: ExprV::Dict(Seq::empty()),
        span: at.deep_view(),
    }));
    mk(SurfaceExpression::TypeAssert { annotation, expr: inner }, span)
}

fn strip_percents(s: &String) -> (r: String)
    ensures
        r@ == without_percents(s@),
{
    let chars: Vec<char> = chars_of(s.as_str());
    let n: usize = chars.len();
    let mut i: usize = 0;
    assert(s@.skip(0) =~= s@);
    while i < n && chars[i] == '%'
        invariant
            i <= n,
            n == chars@.len(),
            chars@ == s@,
            without_percents(s@.skip(i as int)) == without_percents(s@),
        decreases n - i,
    {
        assert(s@.skip(i as int).skip(1) =~= s@.skip(i + 1));
        i = i + 1;
    }
    assert(chars@.subrange(i as int, n as int) =~= s@.skip(i as int));
    slice_text(&chars, i, n)
}

/// Whether the outcome of reading a header value is what its model says.
pub open spec fn same_value(
    r: Result<(Arc<SurfaceNode>, usize), TypeDiagnostic>,
    after: CommentsV,
    m: Result<HeaderValueV, DiagV>,
) -> bool {
    match (r, m) {
        (Ok((node, next)), Ok(v)) => node.deep_view() == v.node && next == v.next && after
            == v.comments,
        (Err(d), Err(v)) => d.deep_view() == v,
        _ => false,
    }
}

/// The dicts that are open in a header value.
struct OpenDicts {
    dicts: Vec<(Vec<Spanned<SurfaceEntry>>, Span)>,
}

impl OpenDicts {
    spec fn model(self) -> Seq<(Seq<EntryV>, SpanV)> {
        self.dicts.deep_view()
    }

    /// Takes a complete value in; hands it back where no dict is open.
    fn take(&mut self, node: Arc<SurfaceNode>, Ghost(next): Ghost<int>, Ghost(c): Ghost<CommentsV>) -> (r:
        Option<Arc<SurfaceNode>>)
        ensures
            value_taken(old(self).model(), node.deep_view(), next, c) == match r {
                Some(n) => ValueStepV::Found(n.deep_view(), next, c),
                None => ValueStepV::More(final(self).model(), next, c),
            },
    {
        broadcast use crate::model::group_models;

        let ghost all = self.model();
        match self.dicts.pop() {
            None => Some(node),
            Some(top) => {
                assert(all.last() == top.deep_view());
                let mut entries: Vec<Spanned<SurfaceEntry>> = top.0;
                entries.push(mk_positional(node));
                let changed: (Vec<Spanned<SurfaceEntry>>, Span) = (entries, top.1);
                let ghost cv = changed.deep_view();
                assert(cv == (all.last().0.push(positional(node.deep_view())), all.last().1));
                self.dicts.push(changed);
                assert(self.model() =~= all.drop_last().push(cv));
                None
            },
        }
    }

    /// Turns the last value of the innermost dict into a key.
    fn key(&mut self) -> (b: bool)
        ensures
            b == (old(self).model().len() > 0 && old(self).model().last().0.len() > 0
                && old(self).model().last().0.last().key is None),
            b ==> ({
                let open = old(self).model();
                let last = open.last().0.last();
                final(self).model() == open.drop_last().push(
                    (
                        open.last().0.drop_last().push(
                            (EntryV { key: Some(last.value), ..last }),
                        ),
                        open.last().1,
                    ),
                )
            }),
    {
        broadcast use crate::model::group_models;

        let ghost all = self.model();
        match self.dicts.pop() {
            None => false,
            Some(top) => {
                assert(all.last() == top.deep_view());
                let mut entries: Vec<Spanned<SurfaceEntry>> = top.0;
                let ghost old_entries = entries.deep_view();
                match entries.pop() {
                    None => false,
                    Some(last) => {
                        assert(old_entries.last() == last.deep_view());
                        if last.node.key.is_some() {
                            return false;
                        }
                        let value: Arc<SurfaceNode> = Arc::clone(&last.node.value);
                        let entry: Spanned<SurfaceEntry> = Spanned {
                            node: SurfaceEntry { key: Some(value), value: last.node.value },
                            span: last.span,
                        };
                        let ghost ev = entry.deep_view();
                        entries.push(entry);
                        assert(entries.deep_view() =~= old_entries.drop_last().push(ev));
                        let changed: (Vec<Spanned<SurfaceEntry>>, Span) = (entries, top.1);
                        let ghost cv = changed.deep_view();
                        self.dicts.push(changed);
                        assert(self.model() =~= all.drop_last().push(cv));
                        true
                    },
                }
            },
        }
    }

    /// Closes the innermost dict.
    fn close(&mut self, at: &Span) -> (r: Option<Arc<SurfaceNode>>)
        ensures
            r is None <==> old(self).model().len() == 0,
            r matches Some(n) ==> {
                &&& final(self).model() == old(self).model().drop_last()
                &&& n.deep_view() == (NodeV {
                    expr: ExprV::Dict(old(self).model().last().0),
                    span: span_between(
                        old(self).model().last().1,
                        at.deep_view(),
                        at.deep_view().file,
                    ),
                })
            },
    {
        broadcast use crate::model::group_models;

        let ghost all = self.model();
        match self.dicts.pop() {
            None => None,
            Some(top) => {
                assert(all.last() == top.deep_view());
                let span: Span = Span::between(&top.1, at, &at.file);
                Some(mk(SurfaceExpression::Dict(top.0), span))
            },
        }
    }
}

/// Reads the value of a header key, which starts at place `start`. Returns it with the place behind
/// it.
pub fn parse_header_value(
    tokens: &Vec<Spanned<Token>>,
    key: &String,
    start: usize,
    comments: &mut Comments,
) -> (r: Result<(Arc<SurfaceNode>, usize), TypeDiagnostic>)
    requires
        0 < start < tokens@.len(),
    ensures
        same_value(
            r,
            final(comments).deep_view(),
            value_from(
                tokens.deep_view(),
                key@,
                start as int,
                start as int,
                Seq::empty(),
                old(comments).deep_view(),
            ),
        ),
        r matches Ok((_, next)) ==> start < next <= tokens@.len(),
{
    broadcast use crate::model::group_models;

    let ghost ts = tokens.deep_view();
    let n: usize = tokens.len();
    let mut open: OpenDicts = OpenDicts { dicts: Vec::new() };
    let mut i: usize = start;
    while i < n
        invariant
            0 < start <= i <= n,
            start < n,
            n == tokens@.len(),
            ts == tokens.deep_view(),
            value_from(
                ts,
                key@,
                start as int,
                i as int,
                open.model(),
                comments.deep_view(),
            ) == value_from(
                ts,
                key@,
                start as int,
                start as int,
                Seq::empty(),
                old(comments).deep_view(),
            ),
        decreases n - i,
    {
        assert(ts[i as int] == tokens@[i as int].deep_view());
        let ghost c = comments.deep_view();
        let ghost step = value_step(ts, key@, start as int, i as int, open.model(), c);
        let at: &Span = &tokens[i].span;
        let mut next: usize = i + 1;
        let mut value: Option<Arc<SurfaceNode>> = token_value(&tokens[i]);
        if value.is_none() {
            match &tokens[i].node {
                Token::Newline | Token::Semicolon => {
                    let message: String = join3(
                        "failed to parse value for header key '",
                        key.as_str(),
                        "'",
                    );
                    assert(ts[start as int] == tokens@[start as int].deep_view());
                    return Err(
                        TypeDiagnostic::error("parse-error", message, tokens[start].span.clone()),
                    );
                },
                Token::OpenBracket => {
                    let ghost before = open.model();
                    let fresh: (Vec<Spanned<SurfaceEntry>>, Span) = (Vec::new(), at.clone());
                    assert(fresh.deep_view() == (Seq::<EntryV>::empty(), at.deep_view()));
                    let ghost fv = fresh.deep_view();
                    open.dicts.push(fresh);
                    assert(open.model() =~= before.push(fv));
                },
                Token::CloseBracket => {
                    value = open.close(at);
                    if value.is_none() {
                        return Err(
                            TypeDiagnostic::error(
                                "parse-error",
                                "unexpected ']' in header value".to_owned(),
                                at.clone(),
                            ),
                        );
                    }
                },
                Token::Colon => {
                    if !open.key() {
                        return Err(
                            TypeDiagnostic::error(
                                "parse-error",
                                "unexpected ':' in header value".to_owned(),
                                at.clone(),
                            ),
                        );
                    }
                },
                Token::At | Token::ImmediateAt => {
                    match parse_annotation_direct(tokens, i, comments) {
                        Err(e) => {
                            return Err(e.into_diagnostic());
                        },
                        Ok((annotation, behind)) => {
                            next = behind;
                            value = Some(mk_annotation(annotation, at));
                        },
                    }
                },
                other => {
                    let mut message: String = "unsupported token in header value: ".to_owned();
                    message.append(describe_token(other).as_str());
                    return Err(TypeDiagnostic::error("parse-error", message, at.clone()));
                },
            }
        }
        match value {
            Some(node) => match open.take(node, Ghost(next as int), Ghost(comments.deep_view())) {
                Some(found) => {
                    return Ok((found, next));
                },
                None => {},
            },
            None => {},
        }
        assert(step == ValueStepV::More(open.model(), next as int, comments.deep_view()));
        i = next;
    }
    assert(ts[n - 1] == tokens@[n - 1].deep_view());
    let message: String = join3(
        "unexpected end of input while parsing header value for '",
        key.as_str(),
        "'",
    );
    Err(TypeDiagnostic::error("parse-error", message, tokens[n - 1].span.clone()))
}

/// Whether a step of a section header ended as its model says.
pub open spec fn same_header_step(
    r: Result<usize, TypeDiagnostic>,
    after: StateV,
    m: HeaderStepV,
) -> bool {
    match (r, m) {
        (Ok(next), HeaderStepV::More(s, i)) => next == i && after == s,
        (Err(d), HeaderStepV::Failed(v)) => d.deep_view() == v,
        _ => false,
    }
}

impl Parser {
    /// Completes the current document, whose region is given.
    pub fn end_document(&mut self, span: Span)
        ensures
            final(self).deep_view() == document_ended(old(self).deep_view(), span.deep_view()),
    {
        broadcast use crate::model::group_models;

        let ghost docs = self.documents.deep_view();
        let mut items: Vec<SurfaceItem> = Vec::new();
        std::mem::swap(&mut items, &mut self.items);
        let mut header: IndexMap<String, Arc<SurfaceNode>> = new_header();
        std::mem::swap(&mut header, &mut self.header);
        let document: Spanned<Arc<SurfaceDocument>> = Spanned {
            node: Arc::new(SurfaceDocument { header, items }),
            span,
        };
        let ghost dv = document.deep_view();
        self.documents.push(document);
        assert(self.documents.deep_view() == docs.push(dv));
    }

    fn name_section(&mut self, word: &String, tokens: &Vec<Spanned<Token>>, i: usize) -> (r: Result<
        usize,
        TypeDiagnostic,
    >)
        requires
            i < tokens@.len(),
        ensures
            same_header_step(
                r,
                final(self).deep_view(),
                section_named(old(self).deep_view(), word@, tokens.deep_view(), i as int),
            ),
            r matches Ok(next) ==> i < next <= tokens@.len(),
    {
        broadcast use crate::model::group_models;

        assert(tokens.deep_view()[i as int] == tokens@[i as int].deep_view());
        let n: usize = tokens.len();
        let span: &Span = &tokens[i].span;
        let name: String = strip_percents(word);
        let annotated: bool = immediate_at(tokens, i + 1);
        let bare: bool = chars_of(name.as_str()).len() == 0;
        if bare {
            let message: &str = if annotated {
                "bare '%' in section header: expected a name after '%' (e.g. '--- %name' or '--- %name@Type')"
            } else {
                "bare '%' in section header: expected a name after '%' (e.g. '--- %name')"
            };
            return Err(TypeDiagnostic::error("parse-error", message.to_owned(), span.clone()));
        }
        if self.sections.contains(name.as_str()) {
            let message: String = join3("duplicate section name '%", name.as_str(), "' in file");
            return Err(TypeDiagnostic::error("parse-error", message, span.clone()));
        }
        self.sections.insert(name.clone());
        header_insert(
            &mut self.header,
            "name".to_owned(),
            mk_string(name, span.clone()),
        );
        if annotated {
            assert(tokens.deep_view()[i + 1] == tokens@[i + 1].deep_view());
            match parse_annotation_direct(tokens, i + 1, &mut self.comments) {
                Err(e) => Err(e.into_diagnostic()),
                Ok((annotation, next)) => {
                    let node: Arc<SurfaceNode> = mk_annotation(annotation, &tokens[i + 1].span);
                    header_insert(&mut self.header, "output-annotation".to_owned(), node);
                    Ok(next)
                },
            }
        } else {
            Ok(i + 1)
        }
    }

    fn key_header(&mut self, key: &String, tokens: &Vec<Spanned<Token>>, i: usize) -> (r: Result<
        usize,
        TypeDiagnostic,
    >)
        requires
            i < tokens@.len(),
        ensures
            same_header_step(
                r,
                final(self).deep_view(),
                header_keyed(old(self).deep_view(), key@, tokens.deep_view(), i as int),
            ),
            r matches Ok(next) ==> i < next <= tokens@.len(),
    {
        broadcast use crate::model::group_models;

        assert(tokens.deep_view()[i as int] == tokens@[i as int].deep_view());
        let n: usize = tokens.len();
        if !colon_at(tokens, i + 1) {
            let message: String = join3("expected ':' after '", key.as_str(), "' in header");
            let span: Span = if i + 1 < n {
                assert(tokens.deep_view()[i + 1] == tokens@[i + 1].deep_view());
                tokens[i + 1].span.clone()
            } else {
                tokens[i].span.clone()
            };
            return Err(TypeDiagnostic::error("parse-error", message, span));
        }
        if i + 1 >= n - 1 {
            assert(tokens.deep_view()[i + 1] == tokens@[i + 1].deep_view());
            let message: String = join3("expected value after '", key.as_str(), ":' in header");
            return Err(
                TypeDiagnostic::error("parse-error", message, tokens[i + 1].span.clone()),
            );
        }
        match parse_header_value(tokens, key, i + 2, &mut self.comments) {
            Err(d) => Err(d),
            Ok((node, next)) => {
                header_insert(&mut self.header, key.clone(), node);
                Ok(next)
            },
        }
    }

    /// Handles the document separator at place `i`.
    pub fn separator(&mut self, tokens: &Vec<Spanned<Token>>, i: usize) -> (r: Result<
        usize,
        TypeDiagnostic,
    >)
        requires
            i < tokens@.len(),
        ensures
            same_step(
                r,
                final(self).deep_view(),
                separator_step(old(self).deep_view(), tokens.deep_view(), i as int),
            ),
            r matches Ok(next) ==> i < next <= tokens@.len(),
    {
        broadcast use crate::model::group_models;

        reveal(separator_step);
        let ghost ts = tokens.deep_view();
        assert(ts[i as int] == tokens@[i as int].deep_view());
        let n: usize = tokens.len();
        let span: &Span = &tokens[i].span;
        if self.stack.len() > 0 {
            return Err(
                TypeDiagnostic::error(
                    "parse-error",
                    "document separator cannot appear inside bracket expressions".to_owned(),
                    span.clone(),
                ),
            );
        }
        let region: Span = region_of_items(&self.items, span);
        self.end_document(region);
        let mut k: usize = i + 1;
        while k < n
            invariant
                i < k <= n,
                n == tokens@.len(),
                ts == tokens.deep_view(),
                header_from(self.deep_view(), ts, k as int) == separator_step(
                    old(self).deep_view(),
                    ts,
                    i as int,
                ),
            decreases n - k,
        {
            assert(ts[k as int] == tokens@[k as int].deep_view());
            let outcome: Result<usize, TypeDiagnostic> = match &tokens[k].node {
                Token::Newline | Token::Semicolon => {
                    return Ok(k + 1);
                },
                Token::Identifier(word) => {
                    if starts_with_percent(word) && !colon_at(tokens, k + 1) {
                        self.name_section(word, tokens, k)
                    } else {
                        self.key_header(word, tokens, k)
                    }
                },
                other => {
                    let mut message: String = "unexpected token in section header: ".to_owned();
                    message.append(describe_token(other).as_str());
                    Err(
                        TypeDiagnostic::error(
                            "parse-error",
                            message,
                            tokens[k].span.clone(),
                        ),
                    )
                },
            };
            match outcome {
                Ok(next) => {
                    k = next;
                },
                Err(d) => {
                    return Err(d);
                },
            }
        }
        Ok(k)
    }
}

fn starts_with_percent(word: &String) -> (b: bool)
    ensures
        b == (word@.len() > 0 && word@[0] == '%'),
{
    let chars: Vec<char> = chars_of(word.as_str());
    chars.len() > 0 && chars[0] == '%'
}

fn colon_at(tokens: &Vec<Spanned<Token>>, i: usize) -> (b: bool)
    ensures
        b == is_colon(tokens.deep_view(), i as int),
{
    if i < tokens.len() {
        assert(tokens.deep_view()[i as int] == tokens@[i as int].deep_view());
        matches!(&tokens[i].node, Token::Colon)
    } else {
        false
    }
}

} // verus!
