//! The state of a parse, how it takes an expression in, and how it goes on after an error.
use crate::annotate::{drain_annotation_frames, drained, drained_node};
use crate::ast::{
    clone_opt_annot, Span, Spanned, SurfaceDocument, SurfaceEntry, SurfaceExpression, SurfaceItem,
    SurfaceNamedArg, SurfaceNode,
};
use crate::diagnostic::{parse_diag, DiagV, TypeDiagnostic};
use crate::frame::{context_name, diag_of, CallArg, CallArgV, ErrV, FrameV, ParseError, StackFrame};
use crate::header::{header_entries, new_header};
use crate::lexer::{TokV, Token};
use crate::model::{span_between, DocumentV, EntryV, ExprV, ItemV, NamedArgV, NodeV, SpanV, Text};
use crate::node::{error_node, mk, mk_error, mk_positional, positional};
use crate::place::{placed, push_value, PlacedV};
use crate::stream::{
    closing_place, immediate_at, is_immediate_at, skip_to_closing_bracket, Comments, CommentsV,
};
use indexmap::IndexMap;
use std::sync::Arc;
use vstd::hash_set::StringHashSet;
use vstd::prelude::*;

verus! {

/// The state of a parse.
pub struct Parser {
    /// The open forms, the innermost last.
    pub stack: Vec<StackFrame>,
    /// The items of the current document.
    pub items: Vec<SurfaceItem>,
    /// The documents that are complete.
    pub documents: Vec<Spanned<Arc<SurfaceDocument>>>,
    pub comments: Comments,
    /// The errors from which the parse went on.
    pub diagnostics: Vec<TypeDiagnostic>,
    /// The region of the last token of an expression, a key or an annotation.
    pub last: Option<Span>,
    /// The region of the node that was completed last; a trailing comment belongs to it.
    pub node: Option<Span>,
    /// The form that a bracket closed last: its keyword and where it was opened.
    pub popped: Option<(&'static str, Span)>,
    /// The header of the current document.
    pub header: IndexMap<String, Arc<SurfaceNode>>,
    /// The names of the sections so far.
    pub sections: StringHashSet,
}

pub struct StateV {
    pub stack: Seq<FrameV>,
    pub items: Seq<ItemV>,
    pub documents: Seq<DocumentV>,
    pub comments: CommentsV,
    pub diagnostics: Seq<DiagV>,
    pub last: Option<SpanV>,
    pub node: Option<SpanV>,
    pub popped: Option<(Text, SpanV)>,
    pub header: Seq<(Text, NodeV)>,
    pub sections: Set<Text>,
}

impl DeepView for Parser {
    type V = StateV;

    open spec fn deep_view(&self) -> StateV {
        StateV {
            stack: self.stack.deep_view(),
            items: self.items.deep_view(),
            documents: self.documents.deep_view(),
            comments: self.comments.deep_view(),
            diagnostics: self.diagnostics.deep_view(),
            last: self.last.deep_view(),
            node: self.node.deep_view(),
            popped: self.popped.deep_view(),
            header: header_entries(self.header),
            sections: self.sections@,
        }
    }
}

/// The state before the first token.
pub open spec fn start_state() -> StateV {
    StateV {
        stack: Seq::empty(),
        items: Seq::empty(),
        documents: Seq::empty(),
        comments: CommentsV {
            leading: Map::empty(),
            trailing: Map::empty(),
            blank_before: Map::empty(),
        },
        diagnostics: Seq::empty(),
        last: None,
        node: None,
        popped: None,
        header: Seq::empty(),
        sections: Set::empty(),
    }
}

/// What a token leads to: a state and the place to go on from, or the end of the parse.
pub enum StepV {
    Next(StateV, int),
    Fatal(DiagV),
}

/// Whether a step ended as its model says.
pub open spec fn same_step(r: Result<usize, TypeDiagnostic>, after: StateV, m: StepV) -> bool {
    match (r, m) {
        (Ok(next), StepV::Next(s, i)) => next == i && after == s,
        (Err(d), StepV::Fatal(v)) => d.deep_view() == v,
        _ => false,
    }
}

/// A diagnostic with a note on the innermost open form.
pub open spec fn noted(d: DiagV, stack: Seq<FrameV>) -> DiagV {
    if stack.len() > 0 {
        DiagV { notes: d.notes.push("while parsing "@ + context_name(stack.last())), ..d }
    } else {
        d
    }
}

/// The state after an expression is put in place during recovery: an error is one more diagnostic.
pub open spec fn put_recovered(s: StateV, node: NodeV) -> StateV {
    let p = placed(s.stack, s.items, node);
    StateV {
        stack: p.stack,
        items: p.items,
        diagnostics: match p.error {
            Some(e) => s.diagnostics.push(parse_diag(e.message, e.span)),
            None => s.diagnostics,
        },
        node: Some(node.span),
        ..s
    }
}

/// An entry with the region of its key and its value.
pub open spec fn respanned(e: EntryV) -> EntryV {
    EntryV {
        key: e.key,
        value: e.value,
        span: match e.key {
            Some(k) => span_between(k.span, e.value.span, k.span.file),
            None => e.value.span,
        },
    }
}

/// The entries, each with the region of its key and its value.
pub open spec fn respan(entries: Seq<EntryV>) -> Seq<EntryV> {
    Seq::new(entries.len(), |i: int| respanned(entries[i]))
}

/// The positional arguments among the arguments of a call.
pub open spec fn positional_args(args: Seq<CallArgV>) -> Seq<NodeV>
    decreases args.len(),
{
    if args.len() == 0 {
        Seq::empty()
    } else {
        match args.last() {
            CallArgV::Positional(n) => positional_args(args.drop_last()).push(n),
            _ => positional_args(args.drop_last()),
        }
    }
}

/// The named arguments among the arguments of a call.
pub open spec fn named_args(args: Seq<CallArgV>) -> Seq<NamedArgV>
    decreases args.len(),
{
    if args.len() == 0 {
        Seq::empty()
    } else {
        match args.last() {
            CallArgV::Named(name, value, annotation) => named_args(args.drop_last()).push(
                NamedArgV { name, value, annotation, span: value.span },
            ),
            _ => named_args(args.drop_last()),
        }
    }
}

/// The function of a call, where it has one: the one that is set, or the first argument.
pub open spec fn call_func(func: Option<NodeV>, args: Seq<CallArgV>) -> Option<NodeV> {
    match func {
        Some(f) => Some(f),
        None => if args.len() > 0 {
            match args[0] {
                CallArgV::Positional(f) => Some(f),
                _ => None,
            }
        } else {
            None
        },
    }
}

/// The arguments of a call without its function.
pub open spec fn call_rest(func: Option<NodeV>, args: Seq<CallArgV>) -> Seq<CallArgV> {
    if func is Some || args.len() == 0 {
        args
    } else {
        args.skip(1)
    }
}

/// What is kept of a form that an error breaks off: the entries of a dict or the arguments of a
/// call, with an error at the end, and else an error alone.
pub open spec fn partial_node(f: FrameV, error_span: SpanV) -> NodeV {
    match f {
        FrameV::Dict { entries, span_start, .. } => if entries.len() == 0 {
            error_node(error_span)
        } else {
            NodeV {
                expr: ExprV::Dict(respan(entries).push(positional(error_node(error_span)))),
                span: span_between(span_start, error_span, error_span.file),
            }
        },
        FrameV::Call { func, implied, args, span_start, .. } => {
            let rest = call_rest(func, args);
            match call_func(func, args) {
                Some(callee) => if rest.len() == 0 {
                    error_node(error_span)
                } else {
                    NodeV {
                        expr: ExprV::Call {
                            func: Box::new(callee),
                            args: positional_args(rest).push(error_node(error_span)),
                            named_args: named_args(rest),
                            implied,
                            pipe_span: None,
                        },
                        span: span_between(span_start, error_span, error_span.file),
                    }
                },
                None => error_node(error_span),
            }
        },
        _ => error_node(error_span),
    }
}

/// The place behind the bracket that closes the form which place `from` stands in.
pub open spec fn behind_form(tokens: Seq<TokV>, from: int) -> int {
    let close = closing_place(tokens, from, 1);
    if close < tokens.len() {
        close + 1
    } else {
        tokens.len() as int
    }
}

/// The state after the innermost form is given up: the error is recorded, what is left of the form
/// goes to the form around it.
pub open spec fn given_up(s: StateV, message: Text, error_span: SpanV) -> StateV {
    let recorded = StateV {
        diagnostics: s.diagnostics.push(noted(parse_diag(message, error_span), s.stack)),
        stack: if s.stack.len() > 0 {
            s.stack.drop_last()
        } else {
            s.stack
        },
        ..s
    };
    put_recovered(
        recorded,
        if s.stack.len() > 0 {
            partial_node(s.stack.last(), error_span)
        } else {
            error_node(error_span)
        },
    )
}

/// The recovery from an error inside the innermost form: the form is given up and skipped.
pub open spec fn recovered(
    s: StateV,
    message: Text,
    error_span: SpanV,
    tokens: Seq<TokV>,
    from: int,
) -> StepV {
    StepV::Next(given_up(s, message, error_span), behind_form(tokens, from))
}

/// What an error leads to: recovery inside a form, the end of the parse outside.
pub open spec fn failed(
    s: StateV,
    e: ErrV,
    error_span: SpanV,
    tokens: Seq<TokV>,
    from: int,
) -> StepV {
    if s.stack.len() > 0 {
        recovered(s, e.message, error_span, tokens, from)
    } else {
        StepV::Fatal(diag_of(e))
    }
}

/// The state with the forms and the items of an attempt to put something in place.
pub open spec fn with_placed(s: StateV, p: PlacedV) -> StateV {
    StateV { stack: p.stack, items: p.items, ..s }
}

/// The state after a node is completed and the attempt to put it in place.
pub open spec fn with_node(s: StateV, p: PlacedV, node: NodeV) -> StateV {
    StateV { node: Some(node.span), ..with_placed(s, p) }
}

/// The annotations that are complete are closed, and the parse goes on behind place `i`.
pub open spec fn closed_off(s: StateV, span: SpanV, tokens: Seq<TokV>, i: int) -> StepV {
    let chained = is_immediate_at(tokens, i + 1);
    let d = drained(s.stack, s.items, chained);
    match d.error {
        Some(e) => failed(with_placed(s, d), e, span, tokens, i + 1),
        None => StepV::Next(
            StateV {
                last: Some(span),
                node: drained_node(s.stack, s.items, chained, s.node),
                ..with_placed(s, d)
            },
            i + 1,
        ),
    }
}

/// What a complete expression at place `i` leads to: it is put in place, and annotations that it
/// completes are closed.
pub open spec fn settled(s: StateV, node: NodeV, span: SpanV, tokens: Seq<TokV>, i: int) -> StepV {
    let p = placed(s.stack, s.items, node);
    match p.error {
        Some(e) => failed(with_placed(s, p), e, span, tokens, i + 1),
        None => closed_off(with_node(s, p, node), span, tokens, i),
    }
}

/// The entries, each with the region of its key and its value.
pub fn respan_entries(entries: Vec<Spanned<SurfaceEntry>>) -> (r: Vec<Spanned<SurfaceEntry>>)
    ensures
        r.deep_view() == respan(entries.deep_view()),
{
    broadcast use crate::model::group_models;

    let ghost all = entries.deep_view();
    let mut out: Vec<Spanned<SurfaceEntry>> = Vec::new();
    let mut i: usize = 0;
    while i < entries.len()
        invariant
            i <= entries@.len(),
            all == entries.deep_view(),
            out.deep_view() == respan(all).take(i as int),
        decreases entries@.len() - i,
    {
        let ghost before = out.deep_view();
        assert(all[i as int] == entries@[i as int].deep_view());
        let e: Spanned<SurfaceEntry> = crate::ast::clone_entry(&entries[i]);
        let span: Span = match &e.node.key {
            Some(k) => Span::between(&k.span, &e.node.value.span, &k.span.file),
            None => e.node.value.span.clone(),
        };
        let changed: Spanned<SurfaceEntry> = Spanned { node: e.node, span };
        let ghost cv = changed.deep_view();
        assert(cv == respanned(all[i as int]));
        out.push(changed);
        assert(out.deep_view() == before.push(cv));
        i = i + 1;
        assert(out.deep_view() =~= respan(all).take(i as int));
    }
    assert(out.deep_view() =~= respan(all));
    out
}

/// The arguments of a call from place `from` on, positional and named ones apart.
pub fn split_args(args: &Vec<CallArg>, from: usize) -> (r: (
    Vec<Arc<SurfaceNode>>,
    Vec<Spanned<SurfaceNamedArg>>,
))
    requires
        from <= args@.len(),
    ensures
        r.0.deep_view() == positional_args(args.deep_view().skip(from as int)),
        r.1.deep_view() == named_args(args.deep_view().skip(from as int)),
{
    broadcast use crate::model::group_models;

    let ghost all = args.deep_view().skip(from as int);
    let mut plain: Vec<Arc<SurfaceNode>> = Vec::new();
    let mut named: Vec<Spanned<SurfaceNamedArg>> = Vec::new();
    let mut i: usize = from;
    while i < args.len()
        invariant
            from <= i <= args@.len(),
            all == args.deep_view().skip(from as int),
            plain.deep_view() == positional_args(all.take(i - from)),
            named.deep_view() == named_args(all.take(i - from)),
        decreases args@.len() - i,
    {
        assert(all[i - from] == args@[i as int].deep_view());
        assert(all.take(i - from + 1).drop_last() =~= all.take(i - from));
        assert(all.take(i - from + 1).last() == all[i - from]);
        let ghost plain_before = plain.deep_view();
        let ghost named_before = named.deep_view();
        match &args[i] {
            CallArg::Positional(n) => {
                plain.push(Arc::clone(n));
                assert(plain.deep_view() == plain_before.push(n.deep_view()));
            },
            CallArg::Named(name, value, annotation) => {
                let arg: Spanned<SurfaceNamedArg> = Spanned {
                    node: SurfaceNamedArg {
                        name: name.clone(),
                        value: Arc::clone(value),
                        annotation: clone_opt_annot(annotation),
                    },
                    span: value.span.clone(),
                };
                let ghost av = arg.deep_view();
                named.push(arg);
                assert(named.deep_view() == named_before.push(av));
            },
        }
        i = i + 1;
    }
    assert(all.take(i - from) =~= all);
    (plain, named)
}

proof fn split_nonempty(args: Seq<CallArgV>)
    ensures
        args.len() == 0 <==> positional_args(args).len() == 0 && named_args(args).len() == 0,
    decreases args.len(),
{
    if args.len() > 0 {
        split_nonempty(args.drop_last());
    }
}

fn keep_partial(frame: StackFrame, error_span: &Span) -> (r: Arc<SurfaceNode>)
    ensures
        r.deep_view() == partial_node(frame.deep_view(), error_span.deep_view()),
{
    broadcast use crate::model::group_models;

    match frame {
        StackFrame::Dict { entries, span_start, .. } => {
            if entries.len() == 0 {
                return mk_error(error_span);
            }
            let mut kept: Vec<Spanned<SurfaceEntry>> = respan_entries(entries);
            kept.push(mk_positional(mk_error(error_span)));
            let span: Span = Span::between(&span_start, error_span, &error_span.file);
            mk(SurfaceExpression::Dict(kept), span)
        },
        StackFrame::Call { func, implied, args, span_start, .. } => {
            let ghost all = args.deep_view();
            let ghost set_func = func.deep_view();
            let has_func: bool = func.is_some();
            let callee: Option<Arc<SurfaceNode>> = match func {
                Some(f) => Some(f),
                None => if args.len() > 0 {
                    assert(all[0] == args@[0].deep_view());
                    match &args[0] {
                        CallArg::Positional(f) => Some(Arc::clone(f)),
                        CallArg::Named(_, _, _) => None,
                    }
                } else {
                    None
                },
            };
            assert(callee.deep_view() == call_func(set_func, all));
            match callee {
                Some(f) => {
                    let from: usize = if has_func || args.len() == 0 {
                        0
                    } else {
                        1
                    };
                    assert(all.skip(from as int) =~= call_rest(set_func, all));
                    proof {
                        split_nonempty(all.skip(from as int));
                    }
                    let (mut plain, named) = split_args(&args, from);
                    if plain.len() == 0 && named.len() == 0 {
                        mk_error(error_span)
                    } else {
                        plain.push(mk_error(error_span));
                        let span: Span = Span::between(&span_start, error_span, &error_span.file);
                        mk(
                            SurfaceExpression::Call {
                                func: f,
                                args: plain,
                                named_args: named,
                                implied,
                                pipe_span: None,
                            },
                            span,
                        )
                    }
                },
                None => mk_error(error_span),
            }
        },
        _ => mk_error(error_span),
    }
}

impl Parser {
    /// The state before the first token.
    pub fn new() -> (r: Parser)
        ensures
            r.deep_view() == start_state(),
    {
        broadcast use crate::model::group_models;

        let comments: Comments = Comments {
            leading: std::collections::BTreeMap::new(),
            trailing: std::collections::BTreeMap::new(),
            blank_before: std::collections::BTreeMap::new(),
        };
        assert(comments.deep_view() =~= start_state().comments);
        Parser {
            stack: Vec::new(),
            items: Vec::new(),
            documents: Vec::new(),
            comments,
            diagnostics: Vec::new(),
            last: None,
            node: None,
            popped: None,
            header: new_header(),
            sections: StringHashSet::new(),
        }
    }

    /// Adds a note on the innermost open form.
    pub fn note_form(&self, d: TypeDiagnostic) -> (r: TypeDiagnostic)
        ensures
            r.deep_view() == noted(d.deep_view(), self.deep_view().stack),
    {
        broadcast use crate::model::group_models;

        let n: usize = self.stack.len();
        if n > 0 {
            assert(self.stack.deep_view().last() == self.stack@.last().deep_view());
            let mut note: String = "while parsing ".to_owned();
            note.append(self.stack[n - 1].context());
            d.with_note(note)
        } else {
            d
        }
    }

    /// Puts an expression in place during recovery: an error is one more diagnostic.
    pub fn put_during_recovery(&mut self, node: Arc<SurfaceNode>)
        ensures
            final(self).deep_view() == put_recovered(old(self).deep_view(), node.deep_view()),
    {
        broadcast use crate::model::group_models;

        self.node = Some(node.span.clone());
        match push_value(&mut self.stack, &mut self.items, node) {
            Ok(_) => {},
            Err(e) => {
                self.diagnostics.push(TypeDiagnostic::error("parse-error", e.message, e.span));
            },
        }
    }

    /// Goes on after an error inside the innermost form: records it, gives the form up and skips
    /// what is left of it. Returns the place to go on from.
    pub fn recover_from_bracket_error(
        &mut self,
        error: ParseError,
        error_span: &Span,
        tokens: &Vec<Spanned<Token>>,
        from: usize,
    ) -> (r: usize)
        requires
            from <= tokens@.len(),
        ensures
            StepV::Next(final(self).deep_view(), r as int) == recovered(
                old(self).deep_view(),
                error.message@,
                error_span.deep_view(),
                tokens.deep_view(),
                from as int,
            ),
            from <= r <= tokens@.len(),
    {
        broadcast use crate::model::group_models;

        let ghost frames = self.stack.deep_view();
        let d: TypeDiagnostic = TypeDiagnostic::error(
            "parse-error",
            error.message,
            error_span.clone(),
        );
        let d: TypeDiagnostic = self.note_form(d);
        self.diagnostics.push(d);
        let node: Arc<SurfaceNode> = match self.stack.pop() {
            Some(frame) => {
                assert(frames.last() == frame.deep_view());
                keep_partial(frame, error_span)
            },
            None => mk_error(error_span),
        };
        self.put_during_recovery(node);
        let close: usize = skip_to_closing_bracket(tokens, from);
        if close < tokens.len() {
            close + 1
        } else {
            tokens.len()
        }
    }

    /// Goes on after an error inside a form; outside of any form the parse ends.
    pub fn fail(
        &mut self,
        error: ParseError,
        error_span: &Span,
        tokens: &Vec<Spanned<Token>>,
        from: usize,
    ) -> (r: Result<usize, TypeDiagnostic>)
        requires
            from <= tokens@.len(),
        ensures
            same_step(
                r,
                final(self).deep_view(),
                failed(
                    old(self).deep_view(),
                    error.deep_view(),
                    error_span.deep_view(),
                    tokens.deep_view(),
                    from as int,
                ),
            ),
            r matches Ok(next) ==> from <= next <= tokens@.len(),
    {
        broadcast use crate::model::group_models;

        if self.stack.len() > 0 {
            Ok(self.recover_from_bracket_error(error, error_span, tokens, from))
        } else {
            Err(error.into_diagnostic())
        }
    }

    /// Closes the annotations that are complete and goes on behind place `i`.
    pub fn close_off(&mut self, span: &Span, tokens: &Vec<Spanned<Token>>, i: usize) -> (r: Result<
        usize,
        TypeDiagnostic,
    >)
        requires
            i < tokens@.len(),
        ensures
            same_step(
                r,
                final(self).deep_view(),
                closed_off(
                    old(self).deep_view(),
                    span.deep_view(),
                    tokens.deep_view(),
                    i as int,
                ),
            ),
            r matches Ok(next) ==> i < next <= tokens@.len(),
    {
        let n: usize = tokens.len();
        let chained: bool = immediate_at(tokens, i + 1);
        match drain_annotation_frames(&mut self.stack, &mut self.items, &mut self.node, chained) {
            Err(e) => self.fail(e, span, tokens, i + 1),
            Ok(_) => {
                self.last = Some(span.clone());
                Ok(i + 1)
            },
        }
    }

    /// Puts a complete expression in place and closes the annotations that it completes.
    pub fn settle(
        &mut self,
        node: Arc<SurfaceNode>,
        span: &Span,
        tokens: &Vec<Spanned<Token>>,
        i: usize,
    ) -> (r: Result<usize, TypeDiagnostic>)
        requires
            i < tokens@.len(),
        ensures
            same_step(
                r,
                final(self).deep_view(),
                settled(
                    old(self).deep_view(),
                    node.deep_view(),
                    span.deep_view(),
                    tokens.deep_view(),
                    i as int,
                ),
            ),
            r matches Ok(next) ==> i < next <= tokens@.len(),
    {
        let n: usize = tokens.len();
        self.node = Some(node.span.clone());
        match push_value(&mut self.stack, &mut self.items, node) {
            Err(e) => self.fail(e, span, tokens, i + 1),
            Ok(_) => self.close_off(span, tokens, i),
        }
    }
}

/// The positional and the named arguments of a call may come in any order, and none is lost.
pub proof fn arguments_are_kept(args: Seq<CallArgV>)
    ensures
        positional_args(args).len() + named_args(args).len() == args.len(),
        forall|i: int|
            0 <= i < args.len() ==> match #[trigger] args[i] {
                CallArgV::Positional(n) => positional_args(args).contains(n),
                CallArgV::Named(name, value, annotation) => named_args(args).contains(
                    NamedArgV { name, value, annotation, span: value.span },
                ),
            },
    decreases args.len(),
{
    if args.len() > 0 {
        let front = args.drop_last();
        arguments_are_kept(front);
        assert forall|i: int| 0 <= i < args.len() implies match #[trigger] args[i] {
            CallArgV::Positional(n) => positional_args(args).contains(n),
            CallArgV::Named(name, value, annotation) => named_args(args).contains(
                NamedArgV { name, value, annotation, span: value.span },
            ),
        } by {
            let p = positional_args(front);
            let n = named_args(front);
            if i < front.len() {
                assert(front[i] == args[i]);
                match args[i] {
                    CallArgV::Positional(x) => {
                        let k = choose|k: int| 0 <= k < p.len() && p[k] == x;
                        assert(positional_args(args)[k] == x);
                    },
                    CallArgV::Named(name, value, annotation) => {
                        let x = NamedArgV { name, value, annotation, span: value.span };
                        let k = choose|k: int| 0 <= k < n.len() && n[k] == x;
                        assert(named_args(args)[k] == x);
                    },
                }
            } else {
                match args.last() {
                    CallArgV::Positional(x) => {
                        assert(positional_args(args)[p.len() as int] == x);
                    },
                    CallArgV::Named(name, value, annotation) => {
                        let x = NamedArgV { name, value, annotation, span: value.span };
                        assert(named_args(args)[n.len() as int] == x);
                    },
                }
            }
        }
    }
}

/// Where an error breaks off a dict that has entries, the keys and the values of all of them are
/// kept, and an error comes behind them.
pub proof fn broken_dict_keeps_entries(f: FrameV, error_span: SpanV)
    requires
        f is Dict,
        f->Dict_entries.len() > 0,
    ensures
        partial_node(f, error_span).expr matches ExprV::Dict(kept) && {
            &&& kept.len() == f->Dict_entries.len() + 1
            &&& kept.last() == positional(error_node(error_span))
            &&& forall|i: int|
                0 <= i < f->Dict_entries.len() ==> (#[trigger] kept[i]).key
                    == f->Dict_entries[i].key && kept[i].value == f->Dict_entries[i].value
        },
{
}

} // verus!
