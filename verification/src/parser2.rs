//! The parser of the compact syntax: dicts, calls, functions, type aliases, type assertions and
//! bracket access. The first error ends the parse.
use crate::ast::Annotation;
use crate::model::{AnnV, Text};
use crate::open::MAX_PARSE_DEPTH;
use crate::pieces::{
    describe_piece, piece_text, pieces_of, split_pieces, FailureV, ParseFailure, Piece, PieceAtV,
    PieceV,
};
use crate::text::{byte_len, count_bytes, decimal, decimal_text, join3, text_is};
use crate::tree::{
    tree_view, BarePairV, Document, Entry, Expr, File, LeafV, Located, NamedArg, NamedV, NoteV,
    PairV, Position, Region, SheetV, TreeV,
};
use std::collections::BTreeMap;
use vstd::prelude::*;

verus! {

/// A parsed source; comments are not kept.
#[derive(Debug, Clone, PartialEq)]
pub struct ParseOutput {
    pub file: Located<File>,
    pub leading_comments: BTreeMap<usize, Vec<String>>,
    pub trailing_comments: BTreeMap<usize, String>,
}

/// An open form, with the offset where it was opened.
#[allow(inconsistent_fields)]
pub enum Form {
    Dict { entries: Vec<Entry>, pending_key: Option<Located<Expr>>, start: usize },
    Call { args: Vec<Arg>, pending_key: Option<(String, Region)>, start: usize },
    Fn { body: Option<Located<Expr>>, return_ann: Option<Located<Annotation>>, start: usize },
    TypeAlias { type_expr: Option<Located<Expr>>, start: usize },
    TypeAssert {
        annotation: Option<Located<Annotation>>,
        expr: Option<Located<Expr>>,
        start: usize,
    },
    BracketAccessKey { target: Located<Expr>, key_expr: Option<Located<Expr>>, start: usize },
}

/// An argument of a call.
pub enum Arg {
    Positional(Located<Expr>),
    Named(String, Located<Expr>),
}

#[allow(inconsistent_fields)]
pub enum FormV {
    Dict { entries: Seq<BarePairV>, pending_key: Option<LeafV>, start: usize },
    Call { args: Seq<ArgV>, pending_key: Option<(Text, Region)>, start: usize },
    Fn { body: Option<LeafV>, return_ann: Option<NoteV>, start: usize },
    TypeAlias { type_expr: Option<LeafV>, start: usize },
    TypeAssert { annotation: Option<NoteV>, expr: Option<LeafV>, start: usize },
    BracketAccessKey { target: LeafV, key_expr: Option<LeafV>, start: usize },
}

pub enum ArgV {
    Positional(LeafV),
    Named(Text, LeafV),
}

impl DeepView for Form {
    type V = FormV;

    open spec fn deep_view(&self) -> FormV {
        match *self {
            Form::Dict { entries, pending_key, start } => FormV::Dict {
                entries: entries.deep_view(),
                pending_key: pending_key.deep_view(),
                start,
            },
            Form::Call { args, pending_key, start } => FormV::Call {
                args: args.deep_view(),
                pending_key: pending_key.deep_view(),
                start,
            },
            Form::Fn { body, return_ann, start } => FormV::Fn {
                body: body.deep_view(),
                return_ann: return_ann.deep_view(),
                start,
            },
            Form::TypeAlias { type_expr, start } => FormV::TypeAlias {
                type_expr: type_expr.deep_view(),
                start,
            },
            Form::TypeAssert { annotation, expr, start } => FormV::TypeAssert {
                annotation: annotation.deep_view(),
                expr: expr.deep_view(),
                start,
            },
            Form::BracketAccessKey { target, key_expr, start } => FormV::BracketAccessKey {
                target: target.deep_view(),
                key_expr: key_expr.deep_view(),
                start,
            },
        }
    }
}

impl DeepView for Arg {
    type V = ArgV;

    open spec fn deep_view(&self) -> ArgV {
        match *self {
            Arg::Positional(e) => ArgV::Positional(e.deep_view()),
            Arg::Named(name, e) => ArgV::Named(name@, e.deep_view()),
        }
    }
}

/// The open forms, the innermost last, and the expressions of the document.
pub struct Builder {
    pub stack: Vec<Form>,
    pub expressions: Vec<Located<Expr>>,
}

pub struct BuilderV {
    pub stack: Seq<FormV>,
    pub expressions: Seq<LeafV>,
}

impl DeepView for Builder {
    type V = BuilderV;

    open spec fn deep_view(&self) -> BuilderV {
        BuilderV {
            stack: self.stack.deep_view(),
            expressions: self.expressions.deep_view(),
        }
    }
}

/// A failure at a place.
pub open spec fn failure(message: Text, span: Region) -> FailureV {
    FailureV { message, span: Some(span) }
}

/// A form with one more expression. Forms other than dicts and calls hold one expression.
pub open spec fn form_with(f: FormV, leaf: LeafV) -> Result<FormV, FailureV> {
    match f {
        FormV::Dict { entries, pending_key, start } => Ok(
            FormV::Dict {
                entries: entries.push(BarePairV { key: pending_key, value: leaf }),
                pending_key: None,
                start,
            },
        ),
        FormV::Call { args, pending_key, start } => Ok(
            FormV::Call {
                args: args.push(
                    match pending_key {
                        Some((name, _)) => ArgV::Named(name, leaf),
                        None => ArgV::Positional(leaf),
                    },
                ),
                pending_key: None,
                start,
            },
        ),
        FormV::Fn { body, return_ann, start } => if body is Some {
            Err(failure("fn form can only have one body expression"@, leaf.span))
        } else {
            Ok(FormV::Fn { body: Some(leaf), return_ann, start })
        },
        FormV::TypeAlias { type_expr, start } => if type_expr is Some {
            Err(failure("type-alias form can only have one type expression"@, leaf.span))
        } else {
            Ok(FormV::TypeAlias { type_expr: Some(leaf), start })
        },
        FormV::TypeAssert { annotation, expr, start } => if expr is Some {
            Err(failure("type-assert form can only have one expression"@, leaf.span))
        } else {
            Ok(FormV::TypeAssert { annotation, expr: Some(leaf), start })
        },
        FormV::BracketAccessKey { target, key_expr, start } => if key_expr is Some {
            Err(failure("bracket access can only have one key expression"@, leaf.span))
        } else {
            Ok(FormV::BracketAccessKey { target, key_expr: Some(leaf), start })
        },
    }
}

/// The state with one more expression, in the innermost form or in the document.
pub open spec fn pushed_value(s: BuilderV, leaf: LeafV) -> Result<BuilderV, FailureV> {
    if s.stack.len() == 0 {
        Ok(BuilderV { expressions: s.expressions.push(leaf), ..s })
    } else {
        match form_with(s.stack.last(), leaf) {
            Ok(f) => Ok(BuilderV { stack: s.stack.drop_last().push(f), ..s }),
            Err(e) => Err(e),
        }
    }
}

/// The region of a closed form.
pub open spec fn form_region(start: usize, end: Region) -> Region {
    Region { start: Position { offset: start, line: 1, column: 1 }, end: end.end }
}

/// An entry with the region of its key and its value.
pub open spec fn located_pair(e: BarePairV) -> PairV {
    PairV {
        key: e.key,
        value: e.value,
        span: match e.key {
            Some(k) => Region { start: k.span.start, end: e.value.span.end },
            None => e.value.span,
        },
    }
}

/// Entries, each with its region.
pub open spec fn located_pairs(es: Seq<BarePairV>) -> Seq<PairV> {
    Seq::new(es.len(), |i: int| located_pair(es[i]))
}

/// The positional arguments among arguments.
pub open spec fn plain_args(args: Seq<ArgV>) -> Seq<LeafV>
    decreases args.len(),
{
    if args.len() == 0 {
        Seq::empty()
    } else {
        match args.last() {
            ArgV::Positional(e) => plain_args(args.drop_last()).push(e),
            ArgV::Named(_, _) => plain_args(args.drop_last()),
        }
    }
}

/// The named arguments among arguments.
pub open spec fn keyed_args(args: Seq<ArgV>) -> Seq<NamedV>
    decreases args.len(),
{
    if args.len() == 0 {
        Seq::empty()
    } else {
        match args.last() {
            ArgV::Positional(_) => keyed_args(args.drop_last()),
            ArgV::Named(name, e) => keyed_args(args.drop_last()).push(
                NamedV { name, value: e, span: e.span },
            ),
        }
    }
}

/// The expression of a call; its first argument is the function.
pub open spec fn call_tree(args: Seq<ArgV>, pending: Option<(Text, Region)>, span: Region) -> Result<
    TreeV,
    FailureV,
> {
    match pending {
        Some((name, at)) => Err(
            failure("named argument `"@ + name + "` without value"@, at),
        ),
        None => if args.len() == 0 {
            Err(failure("call form requires at least a function expression"@, span))
        } else {
            match args[0] {
                ArgV::Positional(f) => Ok(
                    TreeV::Call {
                        func: Box::new(f),
                        args: plain_args(args.skip(1)),
                        named_args: keyed_args(args.skip(1)),
                    },
                ),
                ArgV::Named(name, _) => Err(
                    failure(
                        "call function cannot be a named argument (got `"@ + name + ":`)"@,
                        span,
                    ),
                ),
            }
        },
    }
}

/// The expression of a form that a bracket closes, with the offset where it was opened.
pub open spec fn form_tree(f: FormV, span: Region) -> Result<(TreeV, usize), FailureV> {
    match f {
        FormV::Dict { entries, pending_key, start } => match pending_key {
            Some(key) => Err(failure("key without value: expected `:` and value"@, key.span)),
            None => Ok((TreeV::Dict(located_pairs(entries)), start)),
        },
        FormV::Call { args, pending_key, start } => match call_tree(args, pending_key, span) {
            Ok(t) => Ok((t, start)),
            Err(e) => Err(e),
        },
        FormV::Fn { body, return_ann, start } => match body {
            Some(b) => Ok(
                (
                    TreeV::Fn {
                        return_ann,
                        params: Seq::empty(),
                        body: Box::new(b),
                        desugared: false,
                    },
                    start,
                ),
            ),
            None => Err(failure("fn form requires a body expression"@, span)),
        },
        FormV::TypeAlias { type_expr, start } => match type_expr {
            Some(t) => Ok((TreeV::TypeAlias(Box::new(t)), start)),
            None => Err(failure("type-alias form requires a type expression"@, span)),
        },
        FormV::TypeAssert { annotation, expr, start } => match annotation {
            None => Err(failure("type-assert form requires an annotation"@, span)),
            Some(a) => match expr {
                None => Err(failure("type-assert form requires an expression"@, span)),
                Some(e) => Ok((TreeV::TypeAssert { annotation: a, expr: Box::new(e) }, start)),
            },
        },
        FormV::BracketAccessKey { target, key_expr, start } => match key_expr {
            None => Err(failure("bracket access requires a key expression"@, span)),
            Some(k) => Ok(
                (TreeV::BracketAccess { expr: Box::new(target), key: Box::new(k) }, start),
            ),
        },
    }
}

/// Whether a token carries no meaning of its own.
pub open spec fn idle(t: PieceV) -> bool {
    t is Newline || t is Semicolon || t is Comment
}

/// The first place from `i` on with a token that carries meaning, or the end.
pub open spec fn next_piece(tokens: Seq<PieceAtV>, i: int) -> int
    decreases tokens.len() - i,
{
    if 0 <= i < tokens.len() && idle(tokens[i].tok) {
        next_piece(tokens, i + 1)
    } else {
        i
    }
}

/// Whether a colon is the next token with meaning behind place `i`.
pub open spec fn colon_next(tokens: Seq<PieceAtV>, i: int) -> bool {
    let k = next_piece(tokens, i + 1);
    0 <= k < tokens.len() && tokens[k].tok is Colon
}

/// The form that the bracket at place `i` opens, and the place to go on from.
pub open spec fn form_opened(tokens: Seq<PieceAtV>, i: int) -> (FormV, int) {
    let start = tokens[i].span.start.offset;
    let k = next_piece(tokens, i + 1);
    let dict = FormV::Dict { entries: Seq::empty(), pending_key: None, start };
    if k >= tokens.len() {
        (dict, i + 1)
    } else {
        match tokens[k].tok {
            PieceV::BareWord(word) => if colon_next(tokens, k) {
                (dict, i + 1)
            } else if word == "call"@ {
                (FormV::Call { args: Seq::empty(), pending_key: None, start }, k + 1)
            } else if word == "fn"@ {
                (FormV::Fn { body: None, return_ann: None, start }, k + 1)
            } else if word == "type"@ {
                (FormV::TypeAlias { type_expr: None, start }, k + 1)
            } else {
                (dict, i + 1)
            },
            PieceV::At | PieceV::ImmediateAt => (
                FormV::TypeAssert { annotation: None, expr: None, start },
                i + 1,
            ),
            _ => (dict, i + 1),
        }
    }
}

/// What a token leads to: a state and the place to go on from, or the end of the parse.
pub enum StepV {
    Next(BuilderV, int),
    Failed(FailureV),
}

/// The message where too many forms are open.
pub open spec fn too_deep() -> Text {
    "maximum nesting depth exceeded (limit: 256)"@
}

/// What the opening bracket at place `i` leads to.
pub open spec fn opened(s: BuilderV, tokens: Seq<PieceAtV>, i: int) -> StepV {
    if s.stack.len() >= MAX_PARSE_DEPTH {
        StepV::Failed(failure(too_deep(), tokens[i].span))
    } else {
        let (f, next) = form_opened(tokens, i);
        StepV::Next(BuilderV { stack: s.stack.push(f), ..s }, next)
    }
}

/// What the bracket right behind a value leads to: an access to the last expression of the
/// document. Inside a form it is not supported.
pub open spec fn accessed(s: BuilderV, span: Region, i: int) -> StepV {
    if s.stack.len() >= MAX_PARSE_DEPTH {
        StepV::Failed(failure(too_deep(), span))
    } else if s.stack.len() > 0 || s.expressions.len() == 0 {
        StepV::Failed(
            failure("bracket access inside dict/call contexts not yet supported"@, span),
        )
    } else {
        StepV::Next(
            BuilderV {
                stack: s.stack.push(
                    FormV::BracketAccessKey {
                        target: s.expressions.last(),
                        key_expr: None,
                        start: span.start.offset,
                    },
                ),
                expressions: s.expressions.drop_last(),
            },
            i + 1,
        )
    }
}

/// What an expression at place `i` leads to.
pub open spec fn valued(s: BuilderV, leaf: LeafV, i: int) -> StepV {
    match pushed_value(s, leaf) {
        Ok(after) => StepV::Next(after, i + 1),
        Err(e) => StepV::Failed(e),
    }
}

/// What the closing bracket leads to.
pub open spec fn shut(s: BuilderV, span: Region, i: int) -> StepV {
    if s.stack.len() == 0 {
        StepV::Failed(failure("unmatched closing bracket"@, span))
    } else {
        match form_tree(s.stack.last(), span) {
            Err(e) => StepV::Failed(e),
            Ok((expr, start)) => valued(
                BuilderV { stack: s.stack.drop_last(), ..s },
                LeafV { expr, span: form_region(start, span) },
                i,
            ),
        }
    }
}

/// What the colon leads to: a key must wait for its value.
pub open spec fn keyed(s: BuilderV, span: Region, i: int) -> StepV {
    let outside = StepV::Failed(failure("`:` can only appear in dict or call forms"@, span));
    if s.stack.len() == 0 {
        outside
    } else {
        match s.stack.last() {
            FormV::Dict { pending_key, .. } => if pending_key is Some {
                StepV::Next(s, i + 1)
            } else {
                StepV::Failed(failure("`:` without a key (expected key before `:`)"@, span))
            },
            FormV::Call { pending_key, .. } => if pending_key is Some {
                StepV::Next(s, i + 1)
            } else {
                StepV::Failed(
                    failure(
                        "`:` without a name (expected bare word before `:` for named arg)"@,
                        span,
                    ),
                )
            },
            _ => outside,
        }
    }
}

/// A form with a word as a key that waits for its value, where the form has keys.
pub open spec fn form_with_key(f: FormV, word: Text, span: Region) -> Option<FormV> {
    match f {
        FormV::Dict { entries, start, .. } => Some(
            FormV::Dict {
                entries,
                pending_key: Some(LeafV { expr: TreeV::Str(word), span }),
                start,
            },
        ),
        FormV::Call { args, start, .. } => Some(
            FormV::Call { args, pending_key: Some((word, span)), start },
        ),
        _ => None,
    }
}

/// What the word at place `i` leads to: it is a key where a colon follows.
pub open spec fn worded(s: BuilderV, word: Text, tokens: Seq<PieceAtV>, i: int) -> StepV {
    let span = tokens[i].span;
    let leaf = LeafV { expr: TreeV::Str(word), span };
    if colon_next(tokens, i) && s.stack.len() > 0 {
        match form_with_key(s.stack.last(), word, span) {
            Some(f) => StepV::Next(
                BuilderV { stack: s.stack.drop_last().push(f), ..s },
                i + 1,
            ),
            None => valued(s, leaf, i),
        }
    } else {
        valued(s, leaf, i)
    }
}

/// The annotation whose sign stands at place `i`, with the place behind it.
pub open spec fn note_at(tokens: Seq<PieceAtV>, i: int) -> Result<(NoteV, int), FailureV> {
    let k = next_piece(tokens, i + 1);
    if k >= tokens.len() {
        Err(FailureV { message: "unexpected end of input after @"@, span: None })
    } else {
        let span = tokens[k].span;
        match tokens[k].tok {
            PieceV::BareWord(name) => Ok((NoteV { ann: AnnV::Simple(name), span }, k + 1)),
            PieceV::OpenBracket => Err(
                failure("property dict annotations (@[...]) not yet implemented"@, span),
            ),
            t => Err(
                failure(
                    "expected annotation name or bracket dict after @, found "@ + piece_text(t),
                    span,
                ),
            ),
        }
    }
}

/// What the `@` at place `i` leads to: it belongs to a type assertion that has no annotation yet.
pub open spec fn noted(s: BuilderV, tokens: Seq<PieceAtV>, i: int) -> StepV {
    let outside = StepV::Failed(
        failure(
            "@ annotations outside type-assert or param contexts not yet supported"@,
            tokens[i].span,
        ),
    );
    if s.stack.len() == 0 {
        outside
    } else {
        match s.stack.last() {
            FormV::TypeAssert { annotation: None, expr, start } => match note_at(tokens, i) {
                Ok((note, next)) => StepV::Next(
                    BuilderV {
                        stack: s.stack.drop_last().push(
                            FormV::TypeAssert { annotation: Some(note), expr, start },
                        ),
                        ..s
                    },
                    next,
                ),
                Err(e) => StepV::Failed(e),
            },
            _ => outside,
        }
    }
}

/// What the token at place `i` leads to.
pub open spec fn piece_step(s: BuilderV, tokens: Seq<PieceAtV>, i: int) -> StepV {
    let span = tokens[i].span;
    match tokens[i].tok {
        PieceV::OpenBracket => opened(s, tokens, i),
        PieceV::BracketAccess => accessed(s, span, i),
        PieceV::CloseBracket => shut(s, span, i),
        PieceV::Colon => keyed(s, span, i),
        PieceV::Int(n) => valued(s, LeafV { expr: TreeV::Int(n), span }, i),
        PieceV::Float(t) => valued(s, LeafV { expr: TreeV::Float(t), span }, i),
        PieceV::BoolLit(b) => valued(s, LeafV { expr: TreeV::Bool(b), span }, i),
        PieceV::QuotedString(t) => valued(s, LeafV { expr: TreeV::Str(t), span }, i),
        PieceV::BareWord(word) => worded(s, word, tokens, i),
        PieceV::VarRef(t) => valued(s, LeafV { expr: TreeV::VarRef(t), span }, i),
        PieceV::Comment(_) | PieceV::Newline | PieceV::Semicolon => StepV::Next(s, i + 1),
        PieceV::DocSeparator => StepV::Failed(
            failure("document separators not yet supported"@, span),
        ),
        PieceV::Dot => StepV::Failed(failure("dot access not yet supported"@, span)),
        PieceV::Range => StepV::Failed(failure("range operator not yet supported"@, span)),
        PieceV::At | PieceV::ImmediateAt => noted(s, tokens, i),
        PieceV::Ellipsis => StepV::Failed(
            failure("variadic/rest markers not yet supported"@, span),
        ),
    }
}

proof fn next_piece_bounds(tokens: Seq<PieceAtV>, i: int)
    requires
        0 <= i <= tokens.len(),
    ensures
        i <= next_piece(tokens, i) <= tokens.len(),
    decreases tokens.len() - i,
{
    if i < tokens.len() && idle(tokens[i].tok) {
        next_piece_bounds(tokens, i + 1);
    }
}

/// Every token moves the parse forward.
pub proof fn piece_step_advances(s: BuilderV, tokens: Seq<PieceAtV>, i: int)
    requires
        0 <= i < tokens.len(),
    ensures
        piece_step(s, tokens, i) matches StepV::Next(_, next) ==> i < next <= tokens.len(),
{
    next_piece_bounds(tokens, i + 1);
}

/// No token opens more than one form, and no more forms are open than the limit.
pub proof fn depth_is_limited(s: BuilderV, tokens: Seq<PieceAtV>, i: int)
    requires
        s.stack.len() <= MAX_PARSE_DEPTH,
    ensures
        piece_step(s, tokens, i) matches StepV::Next(after, _) ==> after.stack.len()
            <= MAX_PARSE_DEPTH && after.stack.len() <= s.stack.len() + 1,
{
}

/// A parsed source.
pub struct SheetsV {
    pub documents: Seq<SheetV>,
    pub span: Region,
}

impl DeepView for ParseOutput {
    type V = SheetsV;

    open spec fn deep_view(&self) -> SheetsV {
        SheetsV { documents: self.file.node.documents.deep_view(), span: self.file.span }
    }
}

/// The region of a whole source, whose length in bytes is given.
pub open spec fn whole(size: nat) -> Region {
    Region {
        start: Position { offset: 0, line: 1, column: 1 },
        end: Position { offset: size as usize, line: 1, column: 1 },
    }
}

/// The outcome of the parse from place `i` on.
pub open spec fn outcome(s: BuilderV, tokens: Seq<PieceAtV>, i: int, size: nat) -> Result<
    SheetsV,
    FailureV,
>
    decreases tokens.len() - i,
    via outcome_ends
{
    if i < 0 || i >= tokens.len() {
        if s.stack.len() > 0 {
            Err(
                FailureV {
                    message: decimal(s.stack.len()) + " unclosed bracket(s)"@,
                    span: None,
                },
            )
        } else {
            Ok(
                SheetsV {
                    documents: seq![SheetV { expressions: s.expressions, span: whole(size) }],
                    span: whole(size),
                },
            )
        }
    } else {
        match piece_step(s, tokens, i) {
            StepV::Next(after, next) => outcome(after, tokens, next, size),
            StepV::Failed(e) => Err(e),
        }
    }
}

#[via_fn]
proof fn outcome_ends(s: BuilderV, tokens: Seq<PieceAtV>, i: int, size: nat) {
    if 0 <= i < tokens.len() {
        piece_step_advances(s, tokens, i);
    }
}

/// The outcome of parsing a source.
pub open spec fn parsed2(input: Text) -> Result<SheetsV, FailureV> {
    match pieces_of(input) {
        Err(e) => Err(e),
        Ok(tokens) => outcome(
            BuilderV { stack: Seq::empty(), expressions: Seq::empty() },
            tokens,
            0,
            byte_len(input),
        ),
    }
}

proof fn outcome_has_one_document(s: BuilderV, tokens: Seq<PieceAtV>, i: int, size: nat)
    ensures
        outcome(s, tokens, i, size) matches Ok(o) ==> o.documents.len() == 1,
    decreases tokens.len() - i,
{
    if 0 <= i < tokens.len() {
        piece_step_advances(s, tokens, i);
        match piece_step(s, tokens, i) {
            StepV::Next(after, next) => outcome_has_one_document(after, tokens, next, size),
            _ => {},
        }
    }
}

/// A source of the compact syntax is one document.
pub proof fn one_document(input: Text)
    ensures
        parsed2(input) matches Ok(o) ==> o.documents.len() == 1,
{
    match pieces_of(input) {
        Ok(tokens) => outcome_has_one_document(
            BuilderV { stack: Seq::empty(), expressions: Seq::empty() },
            tokens,
            0,
            byte_len(input),
        ),
        Err(_) => {},
    }
}

fn fail(message: &str, span: Region) -> (r: ParseFailure)
    ensures
        r.deep_view() == failure(message@, span),
{
    ParseFailure { message: message.to_owned(), span: Some(span) }
}

fn push_expr_to_parent(frame: Form, leaf: Located<Expr>) -> (r: Result<Form, ParseFailure>)
    ensures
        match (r, form_with(frame.deep_view(), leaf.deep_view())) {
            (Ok(f), Ok(v)) => f.deep_view() == v,
            (Err(e), Err(v)) => e.deep_view() == v,
            _ => false,
        },
{
    broadcast use crate::model::group_models;

    let span: Region = leaf.span;
    match frame {
        Form::Dict { mut entries, pending_key, start } => {
            entries.push(Entry { key: pending_key, value: leaf });
            Ok(Form::Dict { entries, pending_key: None, start })
        },
        Form::Call { mut args, pending_key, start } => {
            let arg: Arg = match pending_key {
                Some((name, _)) => Arg::Named(name, leaf),
                None => Arg::Positional(leaf),
            };
            args.push(arg);
            Ok(Form::Call { args, pending_key: None, start })
        },
        Form::Fn { body, return_ann, start } => {
            if body.is_some() {
                return Err(fail("fn form can only have one body expression", span));
            }
            Ok(Form::Fn { body: Some(leaf), return_ann, start })
        },
        Form::TypeAlias { type_expr, start } => {
            if type_expr.is_some() {
                return Err(fail("type-alias form can only have one type expression", span));
            }
            Ok(Form::TypeAlias { type_expr: Some(leaf), start })
        },
        Form::TypeAssert { annotation, expr, start } => {
            if expr.is_some() {
                return Err(fail("type-assert form can only have one expression", span));
            }
            Ok(Form::TypeAssert { annotation, expr: Some(leaf), start })
        },
        Form::BracketAccessKey { target, key_expr, start } => {
            if key_expr.is_some() {
                return Err(fail("bracket access can only have one key expression", span));
            }
            Ok(Form::BracketAccessKey { target, key_expr: Some(leaf), start })
        },
    }
}

fn locate_entries(entries: Vec<Entry>) -> (r: Vec<Located<Entry>>)
    ensures
        r.deep_view() == located_pairs(entries.deep_view()),
{
    broadcast use crate::model::group_models;

    let ghost all = entries.deep_view();
    let ghost total = entries@;
    let mut out: Vec<Located<Entry>> = Vec::new();
    for e in it: entries
        invariant
            it.seq() == total,
            all.len() == total.len(),
            forall|k: int| 0 <= k < total.len() ==> #[trigger] all[k] == total[k].deep_view(),
            out.deep_view() == located_pairs(all).take(it.index()),
    {
        let ghost before = out.deep_view();
        assert(all[it.index()] == e.deep_view());
        let span: Region = match &e.key {
            Some(k) => Region { start: k.span.start, end: e.value.span.end },
            None => e.value.span,
        };
        let located: Located<Entry> = Located { node: e, span };
        let ghost lv = located.deep_view();
        out.push(located);
        assert(out.deep_view() == before.push(lv));
        assert(out.deep_view() =~= located_pairs(all).take(it.index() + 1));
    }
    assert(out.deep_view() =~= located_pairs(all));
    out
}

/// The arguments behind the first, among the first `n`.
spec fn behind_first(args: Seq<ArgV>, n: int) -> Seq<ArgV> {
    if n <= 1 {
        Seq::empty()
    } else {
        args.subrange(1, n)
    }
}

fn build_call(args: Vec<Arg>, pending: Option<(String, Region)>, span: Region) -> (r: Result<
    Expr,
    ParseFailure,
>)
    ensures
        match (r, call_tree(args.deep_view(), pending.deep_view(), span)) {
            (Ok(e), Ok(v)) => tree_view(e) == v,
            (Err(e), Err(v)) => e.deep_view() == v,
            _ => false,
        },
{
    broadcast use {crate::model::group_models, crate::tree::tree_lists};

    match pending {
        Some((name, at)) => {
            let message: String = join3("named argument `", name.as_str(), "` without value");
            return Err(ParseFailure { message, span: Some(at) });
        },
        None => {},
    }
    let ghost all = args.deep_view();
    let ghost total = args@;
    let mut func: Option<Located<Expr>> = None;
    let mut plain: Vec<Located<Expr>> = Vec::new();
    let mut named: Vec<Located<NamedArg>> = Vec::new();
    for arg in it: args
        invariant
            it.seq() == total,
            all.len() == total.len(),
            forall|k: int| 0 <= k < total.len() ==> #[trigger] all[k] == total[k].deep_view(),
            pending is None,
            all == args.deep_view(),
            func is None <==> it.index() == 0,
            func matches Some(f) ==> all[0] == ArgV::Positional(f.deep_view()),
            plain.deep_view() == plain_args(behind_first(all, it.index())),
            named.deep_view() == keyed_args(behind_first(all, it.index())),
    {
        let ghost k = it.index();
        let ghost plain_before = plain.deep_view();
        let ghost named_before = named.deep_view();
        assert(all[k] == arg.deep_view());
        proof {
            if k > 0 {
                assert(behind_first(all, k + 1).drop_last() =~= behind_first(all, k));
                assert(behind_first(all, k + 1).last() == all[k]);
            }
        }
        if func.is_none() {
            match arg {
                Arg::Positional(e) => {
                    func = Some(e);
                },
                Arg::Named(name, _) => {
                    let message: String = join3(
                        "call function cannot be a named argument (got `",
                        name.as_str(),
                        ":`)",
                    );
                    return Err(ParseFailure { message, span: Some(span) });
                },
            }
        } else {
            match arg {
                Arg::Positional(e) => {
                    let ghost ev = e.deep_view();
                    plain.push(e);
                    assert(plain.deep_view() == plain_before.push(ev));
                },
                Arg::Named(name, value) => {
                    let at: Region = value.span;
                    let located: Located<NamedArg> = Located {
                        node: NamedArg { name, value },
                        span: at,
                    };
                    let ghost lv = located.deep_view();
                    named.push(located);
                    assert(named.deep_view() == named_before.push(lv));
                },
            }
        }
    }
    match func {
        None => Err(fail("call form requires at least a function expression", span)),
        Some(f) => {
            assert(behind_first(all, all.len() as int) =~= all.skip(1));
            Ok(Expr::Call { func: Box::new(f), args: plain, named_args: named })
        },
    }
}

fn close_form(frame: Form, span: Region) -> (r: Result<(Expr, usize), ParseFailure>)
    ensures
        match (r, form_tree(frame.deep_view(), span)) {
            (Ok((e, start)), Ok((v, at))) => tree_view(e) == v && start == at,
            (Err(e), Err(v)) => e.deep_view() == v,
            _ => false,
        },
{
    broadcast use {crate::model::group_models, crate::tree::tree_lists};

    match frame {
        Form::Dict { entries, pending_key, start } => match pending_key {
            Some(key) => Err(fail("key without value: expected `:` and value", key.span)),
            None => Ok((Expr::Dict(locate_entries(entries)), start)),
        },
        Form::Call { args, pending_key, start } => match build_call(args, pending_key, span) {
            Ok(e) => Ok((e, start)),
            Err(e) => Err(e),
        },
        Form::Fn { body, return_ann, start } => match body {
            Some(b) => Ok(
                (
                    Expr::Fn {
                        return_ann,
                        params: Vec::new(),
                        body: Box::new(b),
                        desugared: false,
                    },
                    start,
                ),
            ),
            None => Err(fail("fn form requires a body expression", span)),
        },
        Form::TypeAlias { type_expr, start } => match type_expr {
            Some(t) => Ok((Expr::TypeAlias(Box::new(t)), start)),
            None => Err(fail("type-alias form requires a type expression", span)),
        },
        Form::TypeAssert { annotation, expr, start } => match annotation {
            None => Err(fail("type-assert form requires an annotation", span)),
            Some(a) => match expr {
                None => Err(fail("type-assert form requires an expression", span)),
                Some(e) => Ok((Expr::TypeAssert { annotation: a, expr: Box::new(e) }, start)),
            },
        },
        Form::BracketAccessKey { target, key_expr, start } => match key_expr {
            None => Err(fail("bracket access requires a key expression", span)),
            Some(k) => Ok(
                (Expr::BracketAccess { expr: Box::new(target), key: Box::new(k) }, start),
            ),
        },
    }
}

fn find_piece(tokens: &Vec<Located<Piece>>, from: usize) -> (r: usize)
    requires
        from <= tokens@.len(),
    ensures
        r == next_piece(tokens.deep_view(), from as int),
        from <= r <= tokens@.len(),
{
    let mut i: usize = from;
    while i < tokens.len()
        invariant
            from <= i <= tokens@.len(),
            next_piece(tokens.deep_view(), i as int) == next_piece(
                tokens.deep_view(),
                from as int,
            ),
        decreases tokens@.len() - i,
    {
        assert(tokens.deep_view()[i as int] == tokens@[i as int].deep_view());
        match &tokens[i].node {
            Piece::Newline | Piece::Semicolon | Piece::Comment(_) => {
                i = i + 1;
            },
            _ => {
                return i;
            },
        }
    }
    i
}

fn has_colon_next(tokens: &Vec<Located<Piece>>, i: usize) -> (b: bool)
    requires
        i < tokens@.len(),
    ensures
        b == colon_next(tokens.deep_view(), i as int),
{
    let n: usize = tokens.len();
    let k: usize = find_piece(tokens, i + 1);
    if k < n {
        assert(tokens.deep_view()[k as int] == tokens@[k as int].deep_view());
        matches!(&tokens[k].node, Piece::Colon)
    } else {
        false
    }
}

fn open_form(tokens: &Vec<Located<Piece>>, i: usize) -> (r: (Form, usize))
    requires
        i < tokens@.len(),
    ensures
        (r.0.deep_view(), r.1 as int) == form_opened(tokens.deep_view(), i as int),
        i < r.1 <= tokens@.len(),
{
    broadcast use crate::model::group_models;

    let n: usize = tokens.len();
    assert(tokens.deep_view()[i as int] == tokens@[i as int].deep_view());
    let start: usize = tokens[i].span.start.offset;
    let k: usize = find_piece(tokens, i + 1);
    if k < n {
        assert(tokens.deep_view()[k as int] == tokens@[k as int].deep_view());
        match &tokens[k].node {
            Piece::BareWord(word) => {
                if !has_colon_next(tokens, k) {
                    if text_is(word, "call") {
                        return (
                            Form::Call { args: Vec::new(), pending_key: None, start },
                            k + 1,
                        );
                    }
                    if text_is(word, "fn") {
                        return (Form::Fn { body: None, return_ann: None, start }, k + 1);
                    }
                    if text_is(word, "type") {
                        return (Form::TypeAlias { type_expr: None, start }, k + 1);
                    }
                }
            },
            Piece::At | Piece::ImmediateAt => {
                return (Form::TypeAssert { annotation: None, expr: None, start }, i + 1);
            },
            _ => {},
        }
    }
    (Form::Dict { entries: Vec::new(), pending_key: None, start }, i + 1)
}

/// Reads the annotation whose sign stands at place `i`. Returns it with the place behind it.
fn parse_annotation(tokens: &Vec<Located<Piece>>, i: usize) -> (r: Result<
    (Located<Annotation>, usize),
    ParseFailure,
>)
    requires
        i < tokens@.len(),
    ensures
        match (r, note_at(tokens.deep_view(), i as int)) {
            (Ok((a, next)), Ok((v, at))) => a.deep_view() == v && next == at && i < next
                <= tokens@.len(),
            (Err(e), Err(v)) => e.deep_view() == v,
            _ => false,
        },
{
    let n: usize = tokens.len();
    let k: usize = find_piece(tokens, i + 1);
    if k >= n {
        return Err(
            ParseFailure { message: "unexpected end of input after @".to_owned(), span: None },
        );
    }
    assert(tokens.deep_view()[k as int] == tokens@[k as int].deep_view());
    let span: Region = tokens[k].span;
    match &tokens[k].node {
        Piece::BareWord(name) => Ok(
            (Located { node: Annotation::Simple(name.clone()), span }, k + 1),
        ),
        Piece::OpenBracket => Err(
            fail("property dict annotations (@[...]) not yet implemented", span),
        ),
        other => {
            let mut message: String =
                "expected annotation name or bracket dict after @, found ".to_owned();
            message.append(describe_piece(other).as_str());
            Err(ParseFailure { message, span: Some(span) })
        },
    }
}

/// Whether a step ended as its model says.
pub open spec fn same_step(r: Result<usize, ParseFailure>, after: BuilderV, m: StepV) -> bool {
    match (r, m) {
        (Ok(next), StepV::Next(s, i)) => next == i && after == s,
        (Err(e), StepV::Failed(v)) => e.deep_view() == v,
        _ => false,
    }
}

impl Builder {
    /// Puts an expression into the innermost form, or into the document.
    pub fn push_value(&mut self, leaf: Located<Expr>) -> (r: Result<(), ParseFailure>)
        ensures
            match (r, pushed_value(old(self).deep_view(), leaf.deep_view())) {
                (Ok(_), Ok(after)) => final(self).deep_view() == after,
                (Err(e), Err(v)) => e.deep_view() == v,
                _ => false,
            },
    {
        broadcast use crate::model::group_models;

        let ghost frames = self.stack.deep_view();
        match self.stack.pop() {
            None => {
                self.expressions.push(leaf);
                Ok(())
            },
            Some(frame) => {
                assert(frames.last() == frame.deep_view());
                match push_expr_to_parent(frame, leaf) {
                    Ok(f) => {
                        self.stack.push(f);
                        Ok(())
                    },
                    Err(e) => Err(e),
                }
            },
        }
    }

    fn value(&mut self, node: Expr, span: Region, i: usize) -> (r: Result<usize, ParseFailure>)
        requires
            i < usize::MAX,
        ensures
            same_step(
                r,
                final(self).deep_view(),
                valued(old(self).deep_view(), LeafV { expr: tree_view(node), span }, i as int),
            ),
            r matches Ok(next) ==> next == i + 1,
    {
        match self.push_value(Located { node, span }) {
            Ok(_) => Ok(i + 1),
            Err(e) => Err(e),
        }
    }

    fn access(&mut self, span: Region, i: usize) -> (r: Result<usize, ParseFailure>)
        requires
            i < usize::MAX,
        ensures
            same_step(r, final(self).deep_view(), accessed(old(self).deep_view(), span, i as int)),
            r matches Ok(next) ==> next == i + 1,
    {
        broadcast use crate::model::group_models;

        if self.stack.len() >= MAX_PARSE_DEPTH {
            return Err(fail("maximum nesting depth exceeded (limit: 256)", span));
        }
        if self.stack.len() > 0 {
            return Err(fail("bracket access inside dict/call contexts not yet supported", span));
        }
        let ghost all = self.expressions.deep_view();
        match self.expressions.pop() {
            None => Err(
                fail("bracket access inside dict/call contexts not yet supported", span),
            ),
            Some(target) => {
                assert(all.last() == target.deep_view());
                self.stack.push(
                    Form::BracketAccessKey {
                        target,
                        key_expr: None,
                        start: span.start.offset,
                    },
                );
                Ok(i + 1)
            },
        }
    }

    fn close(&mut self, span: Region, i: usize) -> (r: Result<usize, ParseFailure>)
        requires
            i < usize::MAX,
        ensures
            same_step(r, final(self).deep_view(), shut(old(self).deep_view(), span, i as int)),
            r matches Ok(next) ==> next == i + 1,
    {
        broadcast use crate::model::group_models;

        let ghost frames = self.stack.deep_view();
        match self.stack.pop() {
            None => Err(fail("unmatched closing bracket", span)),
            Some(frame) => {
                assert(frames.last() == frame.deep_view());
                match close_form(frame, span) {
                    Err(e) => Err(e),
                    Ok((node, start)) => {
                        let region: Region = Region {
                            start: Position { offset: start, line: 1, column: 1 },
                            end: span.end,
                        };
                        self.value(node, region, i)
                    },
                }
            },
        }
    }

    fn colon(&self, span: Region, i: usize) -> (r: Result<usize, ParseFailure>)
        requires
            i < usize::MAX,
        ensures
            same_step(r, self.deep_view(), keyed(self.deep_view(), span, i as int)),
            r matches Ok(next) ==> next == i + 1,
    {
        let n: usize = self.stack.len();
        if n == 0 {
            return Err(fail("`:` can only appear in dict or call forms", span));
        }
        assert(self.stack.deep_view().last() == self.stack@.last().deep_view());
        match &self.stack[n - 1] {
            Form::Dict { pending_key, .. } => {
                if pending_key.is_some() {
                    Ok(i + 1)
                } else {
                    Err(fail("`:` without a key (expected key before `:`)", span))
                }
            },
            Form::Call { pending_key, .. } => {
                if pending_key.is_some() {
                    Ok(i + 1)
                } else {
                    Err(
                        fail(
                            "`:` without a name (expected bare word before `:` for named arg)",
                            span,
                        ),
                    )
                }
            },
            _ => Err(fail("`:` can only appear in dict or call forms", span)),
        }
    }

    fn word(&mut self, word: &String, tokens: &Vec<Located<Piece>>, i: usize) -> (r: Result<
        usize,
        ParseFailure,
    >)
        requires
            i < tokens@.len(),
        ensures
            same_step(
                r,
                final(self).deep_view(),
                worded(old(self).deep_view(), word@, tokens.deep_view(), i as int),
            ),
            r matches Ok(next) ==> next == i + 1,
    {
        broadcast use crate::model::group_models;

        let n: usize = tokens.len();
        assert(tokens.deep_view()[i as int] == tokens@[i as int].deep_view());
        let span: Region = tokens[i].span;
        let ghost frames = self.stack.deep_view();
        if has_colon_next(tokens, i) {
            match self.stack.pop() {
                Some(frame) => {
                    assert(frames.last() == frame.deep_view());
                    assert(frames.drop_last().push(frames.last()) =~= frames);
                    match frame {
                        Form::Dict { entries, start, .. } => {
                            let key: Located<Expr> = Located {
                                node: Expr::Str(word.clone()),
                                span,
                            };
                            assert(key.deep_view() == (LeafV { expr: TreeV::Str(word@), span }));
                            self.stack.push(Form::Dict { entries, pending_key: Some(key), start });
                            return Ok(i + 1);
                        },
                        Form::Call { args, start, .. } => {
                            self.stack.push(
                                Form::Call {
                                    args,
                                    pending_key: Some((word.clone(), span)),
                                    start,
                                },
                            );
                            return Ok(i + 1);
                        },
                        other => {
                            self.stack.push(other);
                            assert(self.stack.deep_view() == frames);
                        },
                    }
                },
                None => {},
            }
        }
        self.value(Expr::Str(word.clone()), span, i)
    }

    fn annotate(&mut self, tokens: &Vec<Located<Piece>>, i: usize) -> (r: Result<
        usize,
        ParseFailure,
    >)
        requires
            i < tokens@.len(),
        ensures
            same_step(
                r,
                final(self).deep_view(),
                noted(old(self).deep_view(), tokens.deep_view(), i as int),
            ),
            r matches Ok(next) ==> i < next <= tokens@.len(),
    {
        broadcast use crate::model::group_models;

        assert(tokens.deep_view()[i as int] == tokens@[i as int].deep_view());
        let span: Region = tokens[i].span;
        let ghost frames = self.stack.deep_view();
        match self.stack.pop() {
            Some(frame) => {
                assert(frames.last() == frame.deep_view());
                match frame {
                    Form::TypeAssert { annotation, expr, start } => {
                        if annotation.is_none() {
                            return match parse_annotation(tokens, i) {
                                Ok((note, next)) => {
                                    self.stack.push(
                                        Form::TypeAssert { annotation: Some(note), expr, start },
                                    );
                                    Ok(next)
                                },
                                Err(e) => Err(e),
                            };
                        }
                    },
                    _ => {},
                }
            },
            None => {},
        }
        Err(
            fail("@ annotations outside type-assert or param contexts not yet supported", span),
        )
    }

    /// Handles the token at place `i`.
    pub fn step(&mut self, tokens: &Vec<Located<Piece>>, i: usize) -> (r: Result<
        usize,
        ParseFailure,
    >)
        requires
            i < tokens@.len(),
        ensures
            same_step(
                r,
                final(self).deep_view(),
                piece_step(old(self).deep_view(), tokens.deep_view(), i as int),
            ),
            r matches Ok(next) ==> i < next <= tokens@.len(),
    {
        broadcast use crate::model::group_models;

        let n: usize = tokens.len();
        assert(tokens.deep_view()[i as int] == tokens@[i as int].deep_view());
        let span: Region = tokens[i].span;
        match &tokens[i].node {
            Piece::OpenBracket => {
                if self.stack.len() >= MAX_PARSE_DEPTH {
                    return Err(fail("maximum nesting depth exceeded (limit: 256)", span));
                }
                let (form, next) = open_form(tokens, i);
                self.stack.push(form);
                Ok(next)
            },
            Piece::BracketAccess => self.access(span, i),
            Piece::CloseBracket => self.close(span, i),
            Piece::Colon => self.colon(span, i),
            Piece::Int(n) => self.value(Expr::Int(*n), span, i),
            Piece::Float(t) => self.value(Expr::Float(t.clone()), span, i),
            Piece::BoolLit(b) => self.value(Expr::Bool(*b), span, i),
            Piece::QuotedString(t) => self.value(Expr::Str(t.clone()), span, i),
            Piece::BareWord(word) => self.word(word, tokens, i),
            Piece::VarRef(t) => self.value(Expr::VarRef(t.clone()), span, i),
            Piece::Comment(_) | Piece::Newline | Piece::Semicolon => Ok(i + 1),
            Piece::DocSeparator => Err(fail("document separators not yet supported", span)),
            Piece::Dot => Err(fail("dot access not yet supported", span)),
            Piece::Range => Err(fail("range operator not yet supported", span)),
            Piece::At | Piece::ImmediateAt => self.annotate(tokens, i),
            Piece::Ellipsis => Err(fail("variadic/rest markers not yet supported", span)),
        }
    }
}

/// Parses a source of the compact syntax.
pub fn parse2(input: &str) -> (r: Result<ParseOutput, ParseFailure>)
    requires
        input@.len() < usize::MAX,
    ensures
        match (r, parsed2(input@)) {
            (Ok(o), Ok(v)) => o.deep_view() == v && o.leading_comments@ == Map::<
                usize,
                Vec<String>,
            >::empty() && o.trailing_comments@ == Map::<usize, String>::empty(),
            (Err(e), Err(v)) => e.deep_view() == v,
            _ => false,
        },
{
    broadcast use crate::model::group_models;

    let tokens: Vec<Located<Piece>> = match split_pieces(input) {
        Ok(t) => t,
        Err(e) => {
            return Err(e);
        },
    };
    let ghost ts = tokens.deep_view();
    let n: usize = tokens.len();
    let size: usize = count_bytes(input);
    let mut builder: Builder = Builder { stack: Vec::new(), expressions: Vec::new() };
    let mut i: usize = 0;
    while i < n
        invariant
            i <= n,
            n == tokens@.len(),
            ts == tokens.deep_view(),
            outcome(builder.deep_view(), ts, i as int, byte_len(input@)) == parsed2(input@),
        decreases n - i,
    {
        match builder.step(&tokens, i) {
            Ok(next) => {
                i = next;
            },
            Err(e) => {
                return Err(e);
            },
        }
    }
    if builder.stack.len() > 0 {
        let mut message: String = decimal_text(builder.stack.len() as u64);
        message.append(" unclosed bracket(s)");
        return Err(ParseFailure { message, span: None });
    }
    let span: Region = Region {
        start: Position { offset: 0, line: 1, column: 1 },
        end: Position { offset: size, line: 1, column: 1 },
    };
    let ghost exprs = builder.expressions.deep_view();
    let mut documents: Vec<Located<Document>> = Vec::new();
    documents.push(Located { node: Document { expressions: builder.expressions }, span });
    assert(documents.deep_view() =~= seq![SheetV { expressions: exprs, span }]);
    Ok(
        ParseOutput {
            file: Located { node: File { documents }, span },
            leading_comments: BTreeMap::new(),
            trailing_comments: BTreeMap::new(),
        },
    )
}

} // verus!
