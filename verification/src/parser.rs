//! The parser: from a source to its documents.
use crate::ast::{
    clone_declaration, Span, Spanned, SurfaceDocument, SurfaceExpression, SurfaceItem, SurfaceNode,
    SurfaceProgram,
};
use crate::close::close_step;
use crate::colon::colon_step;
use crate::diagnostic::{parse_diag, DiagV, TypeDiagnostic};
use crate::annotate::drained;
use crate::direct::{annotation_advances, annotation_at};
use crate::frame::{form_name, opened_at, ErrV, FrameV, StackFrame};
use crate::lexer::{tokenize, tokens_of, TokV, Token, TokenV};
use crate::model::{DocumentV, ExprV, ItemV, NodeV, SpanV, Text};
use crate::node::{mk, var_node};
use crate::open::open_step;
use crate::operator::{at_step, dot_step, ellipsis_step, pipe_step};
use crate::place::placed;
use crate::section::{document_ended, document_span, header_advances, separator_step};
use crate::state::{
    behind_form, closed_off, failed, same_step, settled, start_state, with_placed, Parser, StateV,
    StepV,
};
use crate::stream::{
    closing_place_bounds, deep_values, is_immediate_at, next_significant, next_significant_bounds,
    skipped, CommentsV,
};
use crate::text::{decimal, decimal_text};
use crate::value::{comment_step, line_step, literal_node, literal_step, token_literal, word_step};
use std::collections::BTreeMap;
use std::sync::Arc;
use vstd::prelude::*;

verus! {

/// A parsed source. The comment maps are keyed by the place where a node starts: comments before it,
/// a comment behind it, and whether a blank line stands before it.
#[derive(Debug, Clone, PartialEq)]
pub struct ParseOutput {
    pub leading_comments: BTreeMap<u64, Vec<String>>,
    pub trailing_comments: BTreeMap<u64, String>,
    pub blank_before: BTreeMap<u64, bool>,
    /// The errors from which the parse went on.
    pub diagnostics: Vec<TypeDiagnostic>,
    pub program: SurfaceProgram,
}

pub struct OutputV {
    pub comments: CommentsV,
    pub diagnostics: Seq<DiagV>,
    pub documents: Seq<DocumentV>,
}

impl DeepView for ParseOutput {
    type V = OutputV;

    open spec fn deep_view(&self) -> OutputV {
        OutputV {
            comments: CommentsV {
                leading: deep_values(self.leading_comments@),
                trailing: deep_values(self.trailing_comments@),
                blank_before: self.blank_before@,
            },
            diagnostics: self.diagnostics.deep_view(),
            documents: self.program.documents.deep_view(),
        }
    }
}

impl ParseOutput {
    /// The program of the source.
    pub fn as_surface_program(&self) -> (r: &SurfaceProgram)
        ensures
            *r == self.program,
    {
        &self.program
    }
}

/// What the token at place `i` leads to.
#[verifier::opaque]
pub open spec fn step(s: StateV, tokens: Seq<TokV>, i: int) -> StepV {
    match tokens[i].tok {
        TokenV::OpenBracket => open_step(s, tokens, i),
        TokenV::CloseBracket => close_step(s, tokens, i),
        TokenV::Colon => colon_step(s, tokens, i),
        TokenV::Comment(text) => comment_step(s, text, tokens, i),
        TokenV::Newline | TokenV::Semicolon => line_step(s, tokens, i),
        TokenV::DocSeparator => separator_step(s, tokens, i),
        TokenV::Dot => dot_step(s, tokens, i),
        TokenV::Pipe => pipe_step(s, tokens, i),
        TokenV::At | TokenV::ImmediateAt => at_step(s, tokens, i),
        TokenV::Ellipsis => ellipsis_step(s, tokens, i),
        TokenV::Identifier(word) => word_step(s, word, tokens, i),
        TokenV::Let => word_step(s, "let"@, tokens, i),
        TokenV::Case => word_step(s, "case"@, tokens, i),
        _ => literal_step(s, literal_node(tokens[i])->0, tokens, i),
    }
}

/// Recovery and the end of an expression do not go back.
proof fn failed_advances(s: StateV, e: ErrV, span: SpanV, tokens: Seq<TokV>, from: int)
    requires
        0 <= from <= tokens.len(),
    ensures
        from <= behind_form(tokens, from) <= tokens.len(),
        failed(s, e, span, tokens, from) matches StepV::Next(_, next) ==> from <= next
            <= tokens.len(),
{
    closing_place_bounds(tokens, from, 1);
}

proof fn closed_off_advances(s: StateV, span: SpanV, tokens: Seq<TokV>, i: int)
    requires
        0 <= i < tokens.len(),
    ensures
        closed_off(s, span, tokens, i) matches StepV::Next(_, next) ==> i < next <= tokens.len(),
{
    let d = drained(s.stack, s.items, is_immediate_at(tokens, i + 1));
    if d.error is Some {
        failed_advances(with_placed(s, d), d.error->0, span, tokens, i + 1);
    }
}

proof fn settled_advances(s: StateV, node: NodeV, span: SpanV, tokens: Seq<TokV>, i: int)
    requires
        0 <= i < tokens.len(),
    ensures
        settled(s, node, span, tokens, i) matches StepV::Next(_, next) ==> i < next
            <= tokens.len(),
{
    let p = placed(s.stack, s.items, node);
    if p.error is Some {
        failed_advances(with_placed(s, p), p.error->0, span, tokens, i + 1);
    } else {
        closed_off_advances(with_placed(s, p), span, tokens, i);
    }
}

proof fn word_advances(s: StateV, word: Text, tokens: Seq<TokV>, i: int)
    requires
        0 <= i < tokens.len(),
    ensures
        word_step(s, word, tokens, i) matches StepV::Next(_, next) ==> i < next <= tokens.len(),
{
    reveal(word_step);
    let span = tokens[i].span;
    settled_advances(s, var_node(word, false, span), span, tokens, i);
}

proof fn literal_advances(s: StateV, node: NodeV, tokens: Seq<TokV>, i: int)
    requires
        0 <= i < tokens.len(),
    ensures
        literal_step(s, node, tokens, i) matches StepV::Next(_, next) ==> i < next
            <= tokens.len(),
{
    reveal(literal_step);
    settled_advances(s, node, tokens[i].span, tokens, i);
}

proof fn open_advances(s: StateV, tokens: Seq<TokV>, i: int)
    requires
        0 <= i < tokens.len(),
    ensures
        open_step(s, tokens, i) matches StepV::Next(_, next) ==> i < next <= tokens.len(),
{
    reveal(open_step);
    next_significant_bounds(tokens, i + 1);
}

proof fn close_advances(s: StateV, tokens: Seq<TokV>, i: int)
    requires
        0 <= i < tokens.len(),
    ensures
        close_step(s, tokens, i) matches StepV::Next(_, next) ==> i < next <= tokens.len(),
{
    reveal(close_step);
    let span = tokens[i].span;
    if s.stack.len() > 0 && !(s.stack.last() is AnnotationCollect) {
        assert forall|t: StateV|
            (#[trigger] closed_off(t, span, tokens, i)) matches StepV::Next(_, next) ==> i < next
                <= tokens.len() by {
            closed_off_advances(t, span, tokens, i);
        }
    }
}

proof fn dot_advances(s: StateV, tokens: Seq<TokV>, i: int)
    requires
        0 <= i < tokens.len(),
    ensures
        dot_step(s, tokens, i) matches StepV::Next(_, next) ==> i < next <= tokens.len(),
{
    reveal(dot_step);
    next_significant_bounds(tokens, i + 1);
    let k = next_significant(tokens, i + 1);
    closing_place_bounds(tokens, k, 1);
    if k < tokens.len() {
        closing_place_bounds(tokens, k + 1, 1);
    }
}

proof fn ellipsis_advances(s: StateV, tokens: Seq<TokV>, i: int)
    requires
        0 <= i < tokens.len(),
    ensures
        ellipsis_step(s, tokens, i) matches StepV::Next(_, next) ==> i < next <= tokens.len(),
{
    reveal(ellipsis_step);
    next_significant_bounds(tokens, i + 1);
    let k = next_significant(tokens, i + 1);
    closing_place_bounds(tokens, k, 1);
    if k < tokens.len() {
        closing_place_bounds(tokens, k + 1, 1);
        let c = skipped(tokens, i + 1, s.comments);
        annotation_advances(tokens, k + 1, c);
        match annotation_at(tokens, k + 1, c) {
            Ok(read) => {
                closing_place_bounds(tokens, read.next, 1);
            },
            Err(_) => {},
        }
    }
}

proof fn sign_advances(s: StateV, tokens: Seq<TokV>, i: int)
    requires
        0 <= i < tokens.len(),
    ensures
        colon_step(s, tokens, i) matches StepV::Next(_, next) ==> i < next <= tokens.len(),
        pipe_step(s, tokens, i) matches StepV::Next(_, next) ==> i < next <= tokens.len(),
        at_step(s, tokens, i) matches StepV::Next(_, next) ==> i < next <= tokens.len(),
{
    reveal(colon_step);
    reveal(pipe_step);
    reveal(at_step);
    closing_place_bounds(tokens, i + 1, 1);
}

proof fn separator_advances(s: StateV, tokens: Seq<TokV>, i: int)
    requires
        0 <= i < tokens.len(),
    ensures
        separator_step(s, tokens, i) matches StepV::Next(_, next) ==> i < next <= tokens.len(),
{
    reveal(separator_step);
    header_advances(
        document_ended(s, document_span(s.items, tokens[i].span)),
        tokens,
        i + 1,
    );
}

/// Every token moves the parse forward.
pub proof fn step_advances(s: StateV, tokens: Seq<TokV>, i: int)
    requires
        0 <= i < tokens.len(),
    ensures
        step(s, tokens, i) matches StepV::Next(_, next) ==> i < next <= tokens.len(),
{
    reveal(step);
    match tokens[i].tok {
        TokenV::OpenBracket => open_advances(s, tokens, i),
        TokenV::CloseBracket => close_advances(s, tokens, i),
        TokenV::Comment(_) => {
            reveal(comment_step);
        },
        TokenV::Newline | TokenV::Semicolon => {
            reveal(line_step);
        },
        TokenV::DocSeparator => separator_advances(s, tokens, i),
        TokenV::Dot => dot_advances(s, tokens, i),
        TokenV::Colon | TokenV::Pipe | TokenV::At | TokenV::ImmediateAt => sign_advances(
            s,
            tokens,
            i,
        ),
        TokenV::Ellipsis => ellipsis_advances(s, tokens, i),
        TokenV::Identifier(word) => word_advances(s, word, tokens, i),
        TokenV::Let => word_advances(s, "let"@, tokens, i),
        TokenV::Case => word_advances(s, "case"@, tokens, i),
        _ => literal_advances(s, literal_node(tokens[i])->0, tokens, i),
    }
}

/// Where an open form was opened, and which.
pub open spec fn location(f: FrameV) -> Text {
    decimal(opened_at(f).start_line as nat) + ":"@ + decimal(opened_at(f).start_col as nat) + " ("@
        + form_name(f) + ")"@
}

/// Where the open forms were opened, the outermost first.
pub open spec fn locations(stack: Seq<FrameV>) -> Text
    decreases stack.len(),
{
    if stack.len() == 0 {
        Seq::empty()
    } else if stack.len() == 1 {
        location(stack[0])
    } else {
        locations(stack.drop_last()) + ", "@ + location(stack.last())
    }
}

/// A place in a message.
pub open spec fn place_text(span: SpanV) -> Text {
    decimal(span.start_line as nat) + ":"@ + decimal(span.start_col as nat)
}

/// What is said of the last token.
pub open spec fn last_token_text(last: SpanV) -> Text {
    "last token at "@ + place_text(last)
}

/// What is said of the form that a bracket closed last.
pub open spec fn popped_text(popped: (Text, SpanV)) -> Text {
    "extra "@ + popped.0 + " opened at "@ + place_text(popped.1) + " consumed the expected close"@
}

/// Where a single bracket is left open, the form that was closed last may have taken its close.
pub open spec fn unclosed_hint(s: StateV) -> Text {
    match (s.popped, s.last) {
        (Some(p), Some(l)) => if s.stack.len() == 1 {
            " ("@ + popped_text(p) + "; "@ + last_token_text(l) + ")"@
        } else {
            " ("@ + last_token_text(l) + ")"@
        },
        (Some(p), None) => if s.stack.len() == 1 {
            " ("@ + popped_text(p) + ")"@
        } else {
            Seq::empty()
        },
        (None, Some(l)) => " ("@ + last_token_text(l) + ")"@,
        (None, None) => Seq::empty(),
    }
}

/// The message on forms that are left open at the end of the source.
pub open spec fn unclosed_message(s: StateV) -> Text {
    match s.stack.last() {
        FrameV::Pipe { .. } => "pipe operator '|' requires a right-hand expression"@,
        FrameV::AnnotationCollect { .. } => "annotation @ requires an expression"@,
        _ => if s.stack.len() == 1 {
            "unclosed bracket at "@ + locations(s.stack) + unclosed_hint(s)
        } else {
            decimal(s.stack.len()) + " unclosed brackets — open at: "@ + locations(s.stack)
                + unclosed_hint(s)
        },
    }
}

/// The bracket that opened a form.
pub open spec fn bracket_span(opened: SpanV) -> SpanV {
    SpanV {
        file: opened.file,
        start_line: opened.start_line,
        start_col: opened.start_col,
        end_line: opened.start_line,
        end_col: if opened.start_col == u32::MAX {
            u32::MAX
        } else {
            (opened.start_col + 1) as u32
        },
        name: None,
    }
}

/// The error on forms that are left open at the end of the source.
pub open spec fn unclosed(s: StateV) -> DiagV {
    DiagV {
        help: Some("add a closing ] to complete the expression"@),
        ..parse_diag(unclosed_message(s), bracket_span(opened_at(s.stack.last())))
    }
}

/// The start of a file.
pub open spec fn file_start(file: Text) -> SpanV {
    SpanV { file, start_line: 1, start_col: 1, end_line: 1, end_col: 1, name: None }
}

/// The documents at the end of the source: there is at least one.
pub open spec fn all_documents(s: StateV, file: Text) -> Seq<DocumentV> {
    if s.items.len() == 0 && s.documents.len() > 0 {
        s.documents
    } else {
        document_ended(s, file_start(file)).documents
    }
}

/// The file that the tokens come from. A source without tokens has an empty document that stands in
/// no source; it is attributed to the file that makes it, which is this one.
pub open spec fn token_file(tokens: Seq<TokV>) -> Text {
    if tokens.len() > 0 {
        tokens[0].span.file
    } else {
        "src/parser.rs"@
    }
}

/// What is left at the end of the source.
pub open spec fn finished(s: StateV, file: Text) -> Result<OutputV, DiagV> {
    if s.stack.len() > 0 {
        Err(unclosed(s))
    } else {
        Ok(
            OutputV {
                comments: s.comments,
                diagnostics: s.diagnostics,
                documents: all_documents(s, file),
            },
        )
    }
}

/// The outcome of the parse from place `i` on.
pub open spec fn outcome(s: StateV, tokens: Seq<TokV>, i: int) -> Result<OutputV, DiagV>
    decreases tokens.len() - i,
    via outcome_ends
{
    if i < 0 || i >= tokens.len() {
        finished(s, token_file(tokens))
    } else {
        match step(s, tokens, i) {
            StepV::Next(after, next) => outcome(after, tokens, next),
            StepV::Fatal(d) => Err(d),
        }
    }
}

#[via_fn]
proof fn outcome_ends(s: StateV, tokens: Seq<TokV>, i: int) {
    if 0 <= i < tokens.len() {
        step_advances(s, tokens, i);
    }
}

/// The outcome of parsing a source.
pub open spec fn parsed(source: Text, file: Text) -> Result<OutputV, DiagV> {
    match tokens_of(source, file) {
        Err(e) => Err(parse_diag(e.message, e.span)),
        Ok(tokens) => outcome(start_state(), tokens, 0),
    }
}

proof fn outcome_has_document(s: StateV, tokens: Seq<TokV>, i: int)
    ensures
        outcome(s, tokens, i) matches Ok(o) ==> o.documents.len() > 0,
    decreases tokens.len() - i,
{
    if 0 <= i < tokens.len() {
        step_advances(s, tokens, i);
        match step(s, tokens, i) {
            StepV::Next(after, next) => {
                outcome_has_document(after, tokens, next);
            },
            _ => {},
        }
    }
}

/// A source that can be parsed has at least one document.
pub proof fn parsed_has_document(source: Text, file: Text)
    ensures
        parsed(source, file) matches Ok(o) ==> o.documents.len() > 0,
{
    match tokens_of(source, file) {
        Ok(tokens) => {
            outcome_has_document(start_state(), tokens, 0);
        },
        Err(_) => {},
    }
}

/// The first item of the first document, as an expression.
pub open spec fn first_expression(o: Result<OutputV, DiagV>) -> Result<NodeV, DiagV> {
    match o {
        Err(d) => Err(d),
        Ok(out) => if out.documents[0].items.len() == 0 {
            Err(parse_diag("no items in first document"@, out.documents[0].span))
        } else {
            Ok(
                match out.documents[0].items[0] {
                    ItemV::Expr(n) => n,
                    ItemV::Decl(d, span) => NodeV { expr: ExprV::Decl(Box::new(d)), span },
                },
            )
        },
    }
}

/// The output for an outcome, whatever it is: an error that ends the parse leaves no document and
/// is the only diagnostic.
pub open spec fn output_of(o: Result<OutputV, DiagV>) -> OutputV {
    match o {
        Ok(out) => out,
        Err(d) => OutputV {
            comments: start_state().comments,
            diagnostics: seq![d],
            documents: Seq::empty(),
        },
    }
}

impl Parser {
    /// Handles the token at place `i`.
    pub fn step(&mut self, tokens: &Vec<Spanned<Token>>, i: usize) -> (r: Result<
        usize,
        TypeDiagnostic,
    >)
        requires
            i < tokens@.len(),
        ensures
            same_step(
                r,
                final(self).deep_view(),
                step(old(self).deep_view(), tokens.deep_view(), i as int),
            ),
            r matches Ok(next) ==> i < next <= tokens@.len(),
    {
        reveal(step);
        assert(tokens.deep_view()[i as int] == tokens@[i as int].deep_view());
        let n: usize = tokens.len();
        match &tokens[i].node {
            Token::OpenBracket => self.open_bracket(tokens, i),
            Token::CloseBracket => self.close_bracket(tokens, i),
            Token::Colon => self.colon(tokens, i),
            Token::Comment(text) => Ok(self.comment(text, tokens, i)),
            Token::Newline | Token::Semicolon => Ok(self.line_end(tokens, i)),
            Token::DocSeparator => self.separator(tokens, i),
            Token::Dot => self.dot(tokens, i),
            Token::Pipe => self.pipe(tokens, i),
            Token::At | Token::ImmediateAt => self.at_sign(tokens, i),
            Token::Ellipsis => self.ellipsis(tokens, i),
            Token::Identifier(word) => self.word(word, tokens, i),
            Token::Let => self.word(&"let".to_owned(), tokens, i),
            Token::Case => self.word(&"case".to_owned(), tokens, i),
            _ => match token_literal(&tokens[i]) {
                Some(node) => self.literal(node, tokens, i),
                None => Ok(i + 1),
            },
        }
    }

    fn unclosed_locations(&self) -> (r: String)
        ensures
            r@ == locations(self.deep_view().stack),
    {
        let ghost frames = self.stack.deep_view();
        let mut out: String = String::new();
        let mut i: usize = 0;
        while i < self.stack.len()
            invariant
                i <= self.stack@.len(),
                frames == self.stack.deep_view(),
                out@ == locations(frames.take(i as int)),
            decreases self.stack@.len() - i,
        {
            assert(frames[i as int] == self.stack@[i as int].deep_view());
            assert(frames.take(i + 1).drop_last() =~= frames.take(i as int));
            assert(frames.take(i + 1).last() == frames[i as int]);
            let mut here: String = decimal_text(self.stack[i].opened().start_line as u64);
            here.append(":");
            here.append(decimal_text(self.stack[i].opened().start_col as u64).as_str());
            here.append(" (");
            here.append(self.stack[i].form());
            here.append(")");
            assert(here@ == location(frames[i as int]));
            if i == 0 {
                out = here;
            } else {
                out.append(", ");
                out.append(here.as_str());
            }
            i = i + 1;
        }
        assert(frames.take(i as int) =~= frames);
        out
    }

    fn hint(&self) -> (r: String)
        ensures
            r@ == unclosed_hint(self.deep_view()),
    {
        let single: bool = self.stack.len() == 1;
        let last: Option<String> = match &self.last {
            Some(l) => {
                let mut t: String = "last token at ".to_owned();
                t.append(describe_place(l).as_str());
                assert(t@ == last_token_text(l.deep_view()));
                Some(t)
            },
            None => None,
        };
        let extra: Option<String> = match &self.popped {
            Some((form, span)) => {
                if single {
                    let mut t: String = "extra ".to_owned();
                    t.append(form);
                    t.append(" opened at ");
                    t.append(describe_place(span).as_str());
                    t.append(" consumed the expected close");
                    assert(t@ == popped_text((form@, span.deep_view())));
                    Some(t)
                } else {
                    None
                }
            },
            None => None,
        };
        let mut out: String = " (".to_owned();
        match (extra, last) {
            (Some(e), Some(l)) => {
                out.append(e.as_str());
                out.append("; ");
                out.append(l.as_str());
            },
            (Some(e), None) => {
                out.append(e.as_str());
            },
            (None, Some(l)) => {
                out.append(l.as_str());
            },
            (None, None) => {
                return String::new();
            },
        }
        out.append(")");
        out
    }

    fn unclosed_error(&self) -> (r: TypeDiagnostic)
        requires
            self.stack@.len() > 0,
        ensures
            r.deep_view() == unclosed(self.deep_view()),
    {
        broadcast use crate::model::group_models;

        let n: usize = self.stack.len();
        assert(self.stack.deep_view().last() == self.stack@.last().deep_view());
        let message: String = match &self.stack[n - 1] {
            StackFrame::Pipe { .. } => {
                "pipe operator '|' requires a right-hand expression".to_owned()
            },
            StackFrame::AnnotationCollect { .. } => "annotation @ requires an expression".to_owned(),
            _ => {
                let mut m: String = if n == 1 {
                    "unclosed bracket at ".to_owned()
                } else {
                    let mut count: String = decimal_text(n as u64);
                    count.append(" unclosed brackets — open at: ");
                    count
                };
                m.append(self.unclosed_locations().as_str());
                m.append(self.hint().as_str());
                m
            },
        };
        assert(message@ == unclosed_message(self.deep_view()));
        let opened: &Span = self.stack[n - 1].opened();
        let end_col: u32 = if opened.start_col == u32::MAX {
            u32::MAX
        } else {
            opened.start_col + 1
        };
        let span: Span = Span::new(
            opened.start_line,
            opened.start_col,
            opened.start_line,
            end_col,
            Arc::clone(&opened.file),
        );
        TypeDiagnostic::error("parse-error", message, span).with_help(
            "add a closing ] to complete the expression",
        )
    }

    /// Ends the parse at the end of the source.
    pub fn finish(self, file: &Arc<String>) -> (r: Result<ParseOutput, TypeDiagnostic>)
        ensures
            match (r, finished(self.deep_view(), file@)) {
                (Ok(o), Ok(v)) => o.deep_view() == v,
                (Err(d), Err(v)) => d.deep_view() == v,
                _ => false,
            },
    {
        broadcast use crate::model::group_models;

        if self.stack.len() > 0 {
            return Err(self.unclosed_error());
        }
        let mut done: Parser = self;
        if done.items.len() > 0 || done.documents.len() == 0 {
            done.end_document(Span::new(1, 1, 1, 1, Arc::clone(file)));
        }
        Ok(
            ParseOutput {
                leading_comments: done.comments.leading,
                trailing_comments: done.comments.trailing,
                blank_before: done.comments.blank_before,
                diagnostics: done.diagnostics,
                program: SurfaceProgram { documents: done.documents },
            },
        )
    }
}

fn describe_place(span: &Span) -> (r: String)
    ensures
        r@ == place_text(span.deep_view()),
{
    let mut out: String = decimal_text(span.start_line as u64);
    out.append(":");
    out.append(decimal_text(span.start_col as u64).as_str());
    out
}

/// Whether a result is what its model says.
pub open spec fn same_outcome(
    r: Result<ParseOutput, TypeDiagnostic>,
    m: Result<OutputV, DiagV>,
) -> bool {
    match (r, m) {
        (Ok(o), Ok(v)) => o.deep_view() == v,
        (Err(d), Err(v)) => d.deep_view() == v,
        _ => false,
    }
}

/// Parses a source.
///
/// An error inside brackets becomes a diagnostic of the output: an error node takes the place of
/// what is inside the brackets, and the parse goes on behind them. An error outside of brackets, a
/// source that cannot be split into tokens and brackets that are left open end the parse.
pub fn parse(source: &str, file: Arc<String>) -> (r: Result<ParseOutput, TypeDiagnostic>)
    requires
        source@.len() < u32::MAX,
    ensures
        same_outcome(r, parsed(source@, file@)),
{
    let tokens: Vec<Spanned<Token>> = match tokenize(source, file) {
        Ok(t) => t,
        Err(e) => {
            return Err(TypeDiagnostic::error("parse-error", e.message, e.span));
        },
    };
    let ghost ts = tokens.deep_view();
    let n: usize = tokens.len();
    let mut parser: Parser = Parser::new();
    let mut i: usize = 0;
    while i < n
        invariant
            i <= n,
            n == tokens@.len(),
            ts == tokens.deep_view(),
            outcome(parser.deep_view(), ts, i as int) == parsed(source@, file@),
        decreases n - i,
    {
        match parser.step(&tokens, i) {
            Ok(next) => {
                i = next;
            },
            Err(d) => {
                return Err(d);
            },
        }
    }
    if n > 0 {
        assert(ts[0] == tokens@[0].deep_view());
        parser.finish(&tokens[0].span.file)
    } else {
        parser.finish(&Arc::new("src/parser.rs".to_owned()))
    }
}

/// Parses a source and returns the first item of its first document; a declaration is returned as
/// an expression.
pub fn parse_surface_expression(input: &str) -> (r: Result<Arc<SurfaceNode>, TypeDiagnostic>)
    requires
        input@.len() < u32::MAX,
    ensures
        match (r, first_expression(parsed(input@, "<expression>"@))) {
            (Ok(n), Ok(v)) => n.deep_view() == v,
            (Err(d), Err(v)) => d.deep_view() == v,
            _ => false,
        },
{
    broadcast use crate::model::group_models;

    match parse(input, Arc::new("<expression>".to_owned())) {
        Err(d) => Err(d),
        Ok(output) => {
            proof {
                parsed_has_document(input@, "<expression>"@);
            }
            let docs: &Vec<Spanned<Arc<SurfaceDocument>>> = &output.program.documents;
            assert(docs.deep_view()[0] == docs@[0].deep_view());
            let items: &Vec<SurfaceItem> = &docs[0].node.items;
            if items.len() == 0 {
                return Err(
                    TypeDiagnostic::error(
                        "parse-error",
                        "no items in first document".to_owned(),
                        docs[0].span.clone(),
                    ),
                );
            }
            assert(items.deep_view()[0] == items@[0].deep_view());
            match &items[0] {
                SurfaceItem::Expr(node) => Ok(Arc::clone(node)),
                SurfaceItem::Decl(decl) => Ok(
                    mk(
                        SurfaceExpression::Decl(Box::new(clone_declaration(&decl.node))),
                        decl.span.clone(),
                    ),
                ),
            }
        },
    }
}

/// Parses a source and always returns an output: an error that ends the parse leaves no document
/// and is the only diagnostic.
pub fn parse_with_recovery(input: &str) -> (r: ParseOutput)
    requires
        input@.len() < u32::MAX,
    ensures
        r.deep_view() == output_of(parsed(input@, "<recovery>"@)),
{
    broadcast use crate::model::group_models;

    match parse(input, Arc::new("<recovery>".to_owned())) {
        Ok(output) => output,
        Err(d) => {
            let ghost dv = d.deep_view();
            let mut diagnostics: Vec<TypeDiagnostic> = Vec::new();
            diagnostics.push(d);
            assert(diagnostics.deep_view() =~= seq![dv]);
            let out: ParseOutput = ParseOutput {
                leading_comments: BTreeMap::new(),
                trailing_comments: BTreeMap::new(),
                blank_before: BTreeMap::new(),
                diagnostics,
                program: SurfaceProgram { documents: Vec::new() },
            };
            assert(out.deep_view().comments =~= start_state().comments);
            out
        },
    }
}

} // verus!
