//! What holds of every parse: the depth of the open brackets, the keys of the open dicts, and what
//! is reported.
use crate::annotate::{
    applied, applied_shrinks, collected, drained, drained_node, with_floating, with_return,
};
use crate::close::{
    close_case, close_error, close_step, closed, pattern_waits, put_closed, put_decl,
};
use crate::colon::{colon_step, coloned};
use crate::diagnostic::{parse_diag, DiagV};
use crate::direct::annotation_at;
use crate::frame::{form_name, opened_at, plain_err, ErrV, FrameV, TargetV};
use crate::header::{entry_put, keys_unique, put_reads_back};
use crate::lexer::{tokens_of, TokV, TokenV};
use crate::model::{AnnotV, DeclV, DocumentV, EntryV, ExprV, ItemV, NodeV, SpanV, Text};
use crate::node::{annotated_node, error_node, key_text, string_node, var_node};
use crate::open::{fn_frame, open_step, opened_fn, pushed, MAX_PARSE_DEPTH};
use crate::operator::{
    annotating, at_step, dot_step, dot_target, ellipsis_step, field_put, field_step, no_pipe_source,
    pipe_step, piped, placeholder_put,
};
use crate::parser::{all_documents, outcome, output_of, parsed, step, step_advances, token_file};
use crate::place::{pipe_node, place, placed};
use crate::section::{
    document_ended, document_span, header_from, header_step, header_step_advances, separator_step,
    value_from, value_step, value_step_advances, without_percents, HeaderStepV, ValueStepV,
};
use crate::state::{
    closed_off, failed, given_up, noted, partial_node, put_recovered, recovered, respan, settled,
    start_state, with_node, with_placed, StateV, StepV,
};
use crate::stream::{is_immediate_at, next_significant, skipped, CommentsV};
use crate::take::{taken, taken_from_stack};
use crate::value::{
    comment_step, dict_with_key, key_taken, line_step, literal_node, literal_step, with_word_key,
    word_step,
};
use vstd::prelude::*;

verus! {

/// Whether a form was opened by a bracket.
pub open spec fn is_bracket(f: FrameV) -> bool {
    !(f is Pipe || f is AnnotationCollect)
}

/// The number of brackets that are open.
pub open spec fn open_brackets(stack: Seq<FrameV>) -> nat
    decreases stack.len(),
{
    if stack.len() == 0 {
        0
    } else {
        open_brackets(stack.drop_last()) + if is_bracket(stack.last()) {
            1nat
        } else {
            0nat
        }
    }
}

/// The text of the literal key of an entry, where it has one.
pub open spec fn entry_text(e: EntryV) -> Option<Text> {
    match e.key {
        Some(k) => key_text(k.expr),
        None => None,
    }
}

/// No two entries have the same literal key.
pub open spec fn keys_differ(entries: Seq<EntryV>) -> bool {
    forall|i: int, j: int|
        0 <= i < j < entries.len() && entry_text(#[trigger] entries[i]) is Some ==> entry_text(
            entries[i],
        ) != entry_text(#[trigger] entries[j])
}

/// The literal keys of the entries are among the ones that were seen.
pub open spec fn keys_seen(entries: Seq<EntryV>, seen: Set<Text>) -> bool {
    forall|i: int|
        0 <= i < entries.len() && entry_text(#[trigger] entries[i]) is Some ==> seen.contains(
            entry_text(entries[i])->0,
        )
}

/// The literal keys of an open dict differ, and all of them were seen.
pub open spec fn keys_in_order(f: FrameV) -> bool {
    match f {
        FrameV::Dict { entries, seen_keys, .. } => keys_differ(entries) && keys_seen(
            entries,
            seen_keys,
        ),
        _ => true,
    }
}

/// The literal keys of every open dict differ.
pub open spec fn stack_in_order(stack: Seq<FrameV>) -> bool {
    forall|i: int| 0 <= i < stack.len() ==> keys_in_order(#[trigger] stack[i])
}

/// Whether a diagnostic is an error of the parser.
pub open spec fn is_parse_error(d: DiagV) -> bool {
    d.level is Error && d.kind == "parse-error"@
}

pub open spec fn only_parse_errors(ds: Seq<DiagV>) -> bool {
    forall|i: int| 0 <= i < ds.len() ==> is_parse_error(#[trigger] ds[i])
}

/// The names in the header of every document differ.
pub open spec fn headers_in_order(documents: Seq<DocumentV>) -> bool {
    forall|i: int| 0 <= i < documents.len() ==> keys_unique((#[trigger] documents[i]).header)
}

/// What holds of the state of a parse before every token.
pub open spec fn state_in_order(s: StateV) -> bool {
    &&& stack_in_order(s.stack)
    &&& open_brackets(s.stack) <= MAX_PARSE_DEPTH
    &&& only_parse_errors(s.diagnostics)
    &&& keys_unique(s.header)
    &&& headers_in_order(s.documents)
}

/// What was reported and what was complete stays.
pub open spec fn goes_on(s: StateV, t: StateV) -> bool {
    &&& s.diagnostics.is_prefix_of(t.diagnostics)
    &&& s.documents.is_prefix_of(t.documents)
    &&& s.sections.subset_of(t.sections)
}

/// Open forms that come from others without one more bracket.
#[verifier::opaque]
spec fn stack_kept(a: Seq<FrameV>, b: Seq<FrameV>) -> bool {
    &&& stack_in_order(a) ==> stack_in_order(b)
    &&& open_brackets(b) <= open_brackets(a)
}

/// Diagnostics that come from others by adding errors of the parser.
#[verifier::opaque]
spec fn errors_added(a: Seq<DiagV>, b: Seq<DiagV>) -> bool {
    &&& a.is_prefix_of(b)
    &&& only_parse_errors(a) ==> only_parse_errors(b)
}

/// A state that comes from another inside one document.
#[verifier::opaque]
spec fn state_kept(s: StateV, t: StateV) -> bool {
    &&& stack_kept(s.stack, t.stack)
    &&& errors_added(s.diagnostics, t.diagnostics)
    &&& t.documents == s.documents
    &&& t.header == s.header
    &&& t.sections == s.sections
}

proof fn stack_same(a: Seq<FrameV>)
    ensures
        stack_kept(a, a),
{
    reveal(stack_kept);
}

proof fn stack_twice(a: Seq<FrameV>, b: Seq<FrameV>, c: Seq<FrameV>)
    requires
        stack_kept(a, b),
        stack_kept(b, c),
    ensures
        stack_kept(a, c),
{
    reveal(stack_kept);
}

proof fn stack_popped(a: Seq<FrameV>)
    requires
        a.len() > 0,
    ensures
        stack_kept(a, a.drop_last()),
{
    reveal(stack_kept);
    assert forall|i: int| stack_in_order(a) && 0 <= i < a.drop_last().len() implies keys_in_order(
        #[trigger] a.drop_last()[i],
    ) by {
        assert(keys_in_order(a[i]));
    }
}

/// The innermost form is replaced by one of the same kind.
proof fn stack_replaced(a: Seq<FrameV>, g: FrameV)
    requires
        a.len() > 0,
        keys_in_order(a.last()) ==> keys_in_order(g),
        is_bracket(g) ==> is_bracket(a.last()),
    ensures
        stack_kept(a, a.drop_last().push(g)),
{
    reveal(stack_kept);
    let b = a.drop_last().push(g);
    assert(b.drop_last() =~= a.drop_last());
    assert forall|i: int| stack_in_order(a) && 0 <= i < b.len() implies keys_in_order(
        #[trigger] b[i],
    ) by {
        assert(keys_in_order(a[i]));
    }
}

/// A pipe or an annotation is opened.
proof fn stack_pushed(a: Seq<FrameV>, g: FrameV)
    requires
        !is_bracket(g),
    ensures
        stack_kept(a, a.push(g)),
{
    reveal(stack_kept);
    let b = a.push(g);
    assert(b.drop_last() =~= a);
    assert forall|i: int| stack_in_order(a) && 0 <= i < b.len() implies keys_in_order(
        #[trigger] b[i],
    ) by {
        if i < a.len() {
            assert(keys_in_order(a[i]));
        }
    }
}

proof fn error_pushed(a: Seq<DiagV>, d: DiagV)
    requires
        is_parse_error(d),
    ensures
        errors_added(a, a.push(d)),
{
    reveal(errors_added);
    let b = a.push(d);
    assert(a.is_prefix_of(b)) by {
        assert(b.subrange(0, a.len() as int) =~= a);
    }
    assert forall|i: int| only_parse_errors(a) && 0 <= i < b.len() implies is_parse_error(
        #[trigger] b[i],
    ) by {
        if i < a.len() {
            assert(is_parse_error(a[i]));
        }
    }
}

proof fn errors_same(a: Seq<DiagV>)
    ensures
        errors_added(a, a),
{
    reveal(errors_added);
    assert(a.subrange(0, a.len() as int) =~= a);
}

proof fn errors_twice(a: Seq<DiagV>, b: Seq<DiagV>, c: Seq<DiagV>)
    requires
        errors_added(a, b),
        errors_added(b, c),
    ensures
        errors_added(a, c),
{
    reveal(errors_added);
    assert(a =~= c.subrange(0, a.len() as int)) by {
        assert forall|i: int| 0 <= i < a.len() implies a[i] == c[i] by {
            assert(a[i] == b.subrange(0, a.len() as int)[i]);
            assert(b[i] == c.subrange(0, b.len() as int)[i]);
        }
    }
}

proof fn state_twice(s: StateV, t: StateV, u: StateV)
    requires
        state_kept(s, t),
        state_kept(t, u),
    ensures
        state_kept(s, u),
{
    reveal(state_kept);
    stack_twice(s.stack, t.stack, u.stack);
    errors_twice(s.diagnostics, t.diagnostics, u.diagnostics);
}

/// Putting an expression into a form keeps its kind, and keeps its keys apart.
pub(crate) proof fn place_kept(f: FrameV, node: NodeV)
    ensures
        keys_in_order(f) ==> keys_in_order(place(f, node).0),
        is_bracket(f) == is_bracket(place(f, node).0),
{
    match f {
        FrameV::Dict { entries, seen_keys, .. } => {
            match place(f, node).0 {
                FrameV::Dict { entries: after, seen_keys: seen, .. } => {
                    if keys_in_order(f) && after.len() > entries.len() {
                        assert forall|i: int, j: int|
                            0 <= i < j < after.len() && entry_text(
                                #[trigger] after[i],
                            ) is Some implies entry_text(after[i]) != entry_text(
                            #[trigger] after[j],
                        ) by {
                            assert(after[i] == entries[i]);
                            if j < entries.len() {
                                assert(after[j] == entries[j]);
                            }
                        }
                        assert forall|i: int|
                            0 <= i < after.len() && entry_text(
                                #[trigger] after[i],
                            ) is Some implies seen.contains(entry_text(after[i])->0) by {
                            if i < entries.len() {
                                assert(after[i] == entries[i]);
                            }
                        }
                    }
                },
                _ => {},
            }
        },
        _ => {},
    }
}

/// Taking an expression out of a form keeps its kind, and keeps its keys apart.
pub(crate) proof fn taken_kept(f: FrameV, span: SpanV)
    ensures
        keys_in_order(f) ==> keys_in_order(taken(f, span).0),
        is_bracket(f) == is_bracket(taken(f, span).0),
{
    match f {
        FrameV::Dict { entries, seen_keys, .. } => {
            match taken(f, span).0 {
                FrameV::Dict { entries: after, seen_keys: seen, .. } => {
                    if keys_in_order(f) && after.len() < entries.len() {
                        assert(forall|i: int|
                            0 <= i < after.len() ==> #[trigger] after[i] == entries[i]);
                        assert forall|i: int|
                            0 <= i < after.len() && entry_text(
                                #[trigger] after[i],
                            ) is Some implies seen.contains(entry_text(after[i])->0) by {
                            assert(entry_text(entries[i]) != entry_text(
                                entries[entries.len() - 1],
                            ));
                        }
                    }
                },
                _ => {},
            }
        },
        _ => {},
    }
}

/// A colon keeps the kind of a form, and keeps its keys apart.
pub(crate) proof fn coloned_kept(f: FrameV, span: SpanV)
    ensures
        keys_in_order(f) ==> keys_in_order(coloned(f, span).0),
        is_bracket(f) == is_bracket(coloned(f, span).0),
{
    match f {
        FrameV::Dict { entries, .. } => {
            match coloned(f, span).0 {
                FrameV::Dict { entries: after, .. } => {
                    assert(forall|i: int|
                        0 <= i < after.len() ==> #[trigger] after[i] == entries[i]);
                },
                _ => {},
            }
        },
        _ => {},
    }
}

proof fn placed_kept(stack: Seq<FrameV>, items: Seq<ItemV>, node: NodeV)
    ensures
        stack_kept(stack, placed(stack, items, node).stack),
    decreases stack.len(),
{
    if stack.len() == 0 {
        stack_same(stack);
    } else {
        match stack.last() {
            FrameV::Pipe { lhs, pipe_span } => {
                let inner = pipe_node(lhs, pipe_span, node);
                placed_kept(stack.drop_last(), items, inner);
                stack_popped(stack);
                stack_twice(
                    stack,
                    stack.drop_last(),
                    placed(stack.drop_last(), items, inner).stack,
                );
            },
            f => {
                place_kept(f, node);
                stack_replaced(stack, place(f, node).0);
            },
        }
    }
}

proof fn applied_kept(stack: Seq<FrameV>, items: Seq<ItemV>, target: TargetV, ann: AnnotV)
    ensures
        stack_kept(stack, applied(stack, items, target, ann).stack),
{
    stack_same(stack);
    match target {
        TargetV::Attached(n) => {
            placed_kept(stack, items, annotated_node(n, ann));
        },
        TargetV::Floating => {
            if stack.len() > 0 && stack.last() is Dict {
                stack_replaced(stack, with_floating(stack, ann).0.last());
            }
        },
        TargetV::FnReturn => {
            if stack.len() > 0 && stack.last() is Fn {
                stack_replaced(stack, with_return(stack, ann).last());
            }
        },
    }
}

proof fn drained_kept(stack: Seq<FrameV>, items: Seq<ItemV>, chained: bool)
    ensures
        stack_kept(stack, drained(stack, items, chained).stack),
    decreases stack.len(),
{
    stack_same(stack);
    if !chained && stack.len() > 0 {
        match stack.last() {
            FrameV::AnnotationCollect { target, value: Some(value), span_start } => {
                let ann = collected(value, span_start);
                let p = applied(stack.drop_last(), items, target, ann);
                applied_shrinks(stack.drop_last(), items, target, ann);
                applied_kept(stack.drop_last(), items, target, ann);
                stack_popped(stack);
                stack_twice(stack, stack.drop_last(), p.stack);
                if p.error is None {
                    drained_kept(p.stack, p.items, chained);
                    stack_twice(stack, p.stack, drained(p.stack, p.items, chained).stack);
                }
            },
            _ => {},
        }
    }
}

proof fn taken_stack_kept(stack: Seq<FrameV>, span: SpanV)
    ensures
        stack_kept(stack, taken_from_stack(stack, span).0),
{
    if stack.len() == 0 {
        stack_same(stack);
    } else {
        taken_kept(stack.last(), span);
        stack_replaced(stack, taken(stack.last(), span).0);
    }
}


/// The parts of the state that a step inside one document leaves alone.
spec fn same_document(s: StateV, t: StateV) -> bool {
    &&& t.documents == s.documents
    &&& t.header == s.header
    &&& t.sections == s.sections
}

/// Only the open forms change.
proof fn state_restacked(s: StateV, t: StateV)
    requires
        stack_kept(s.stack, t.stack),
        t.diagnostics == s.diagnostics,
        same_document(s, t),
    ensures
        state_kept(s, t),
{
    reveal(state_kept);
    errors_same(s.diagnostics);
}

proof fn state_same(s: StateV, t: StateV)
    requires
        t.stack == s.stack,
        t.diagnostics == s.diagnostics,
        same_document(s, t),
    ensures
        state_kept(s, t),
{
    stack_same(s.stack);
    state_restacked(s, t);
}

proof fn put_recovered_kept(s: StateV, node: NodeV)
    ensures
        state_kept(s, put_recovered(s, node)),
{
    reveal(state_kept);
    placed_kept(s.stack, s.items, node);
    errors_same(s.diagnostics);
    match placed(s.stack, s.items, node).error {
        Some(e) => {
            error_pushed(s.diagnostics, parse_diag(e.message, e.span));
        },
        None => {},
    }
}

proof fn given_up_kept(s: StateV, message: Text, error_span: SpanV)
    ensures
        state_kept(s, given_up(s, message, error_span)),
{
    let d = noted(parse_diag(message, error_span), s.stack);
    let recorded = StateV {
        diagnostics: s.diagnostics.push(d),
        stack: if s.stack.len() > 0 {
            s.stack.drop_last()
        } else {
            s.stack
        },
        ..s
    };
    let node = if s.stack.len() > 0 {
        partial_node(s.stack.last(), error_span)
    } else {
        error_node(error_span)
    };
    assert(state_kept(s, recorded)) by {
        reveal(state_kept);
        error_pushed(s.diagnostics, d);
        stack_same(s.stack);
        if s.stack.len() > 0 {
            stack_popped(s.stack);
        }
    }
    put_recovered_kept(recorded, node);
    state_twice(s, recorded, put_recovered(recorded, node));
}

/// A step inside one document without one more bracket.
spec fn step_kept(s: StateV, r: StepV) -> bool {
    match r {
        StepV::Next(t, _) => state_kept(s, t),
        StepV::Fatal(d) => is_parse_error(d),
    }
}

proof fn failed_kept(s: StateV, t: StateV, e: ErrV, span: SpanV, tokens: Seq<TokV>, from: int)
    requires
        state_kept(s, t),
    ensures
        step_kept(s, failed(t, e, span, tokens, from)),
        step_kept(s, recovered(t, e.message, span, tokens, from)),
{
    given_up_kept(t, e.message, span);
    state_twice(s, t, given_up(t, e.message, span));
}

proof fn closed_off_kept(s: StateV, t: StateV, span: SpanV, tokens: Seq<TokV>, i: int)
    requires
        state_kept(s, t),
    ensures
        step_kept(s, closed_off(t, span, tokens, i)),
{
    let chained = is_immediate_at(tokens, i + 1);
    let d = drained(t.stack, t.items, chained);
    drained_kept(t.stack, t.items, chained);
    let u = with_placed(t, d);
    state_restacked(t, u);
    state_twice(s, t, u);
    match d.error {
        Some(e) => {
            failed_kept(s, u, e, span, tokens, i + 1);
        },
        None => {
            let v = StateV {
                last: Some(span),
                node: drained_node(t.stack, t.items, chained, t.node),
                ..u
            };
            state_same(u, v);
            state_twice(s, u, v);
        },
    }
}

proof fn settled_kept(s: StateV, node: NodeV, span: SpanV, tokens: Seq<TokV>, i: int)
    ensures
        step_kept(s, settled(s, node, span, tokens, i)),
{
    let p = placed(s.stack, s.items, node);
    placed_kept(s.stack, s.items, node);
    state_restacked(s, with_placed(s, p));
    match p.error {
        Some(e) => {
            failed_kept(s, with_placed(s, p), e, span, tokens, i + 1);
        },
        None => {
            state_restacked(s, with_node(s, p, node));
            closed_off_kept(s, with_node(s, p, node), span, tokens, i);
        },
    }
}

broadcast proof fn close_error_kept(s: StateV, t: StateV, e: ErrV)
    requires
        state_kept(s, t),
    ensures
        #[trigger] state_kept(s, close_error(t, e)),
{
    let d = DiagV {
        help: e.help,
        ..noted(parse_diag(e.message, e.span), t.stack)
    };
    let u = StateV { diagnostics: t.diagnostics.push(d), ..t };
    assert(state_kept(t, u)) by {
        reveal(state_kept);
        error_pushed(t.diagnostics, d);
        stack_same(t.stack);
    }
    put_recovered_kept(u, error_node(e.span));
    state_twice(t, u, put_recovered(u, error_node(e.span)));
    state_twice(s, t, close_error(t, e));
}

broadcast proof fn put_closed_kept(s: StateV, t: StateV, node: NodeV)
    requires
        state_kept(s, t),
    ensures
        #[trigger] state_kept(s, put_closed(t, node)),
{
    let p = placed(t.stack, t.items, node);
    placed_kept(t.stack, t.items, node);
    let u = with_placed(t, p);
    state_restacked(t, u);
    state_twice(s, t, u);
    match p.error {
        Some(e) => {
            close_error_kept(s, u, e);
        },
        None => {
            state_restacked(t, with_node(t, p, node));
            state_twice(s, t, with_node(t, p, node));
        },
    }
}

broadcast proof fn put_decl_kept(s: StateV, t: StateV, decl: DeclV, span: SpanV)
    requires
        state_kept(s, t),
    ensures
        #[trigger] state_kept(s, put_decl(t, decl, span)),
{
    if t.stack.len() == 0 {
        state_same(t, put_decl(t, decl, span));
        state_twice(s, t, put_decl(t, decl, span));
    } else {
        put_closed_kept(
            s,
            t,
            NodeV { expr: ExprV::Decl(Box::new(decl)), span },
        );
    }
}


broadcast group closing_keeps {
    close_error_kept,
    put_closed_kept,
    put_decl_kept,
}

proof fn closed_case_kept(
    s: StateV,
    let_bindings: Option<NodeV>,
    pattern: Option<NodeV>,
    body: Seq<NodeV>,
    span_start: SpanV,
    span: SpanV,
)
    ensures
        state_kept(s, close_case(s, let_bindings, pattern, body, span_start, span)),
{
    broadcast use closing_keeps;

    state_same(s, s);
    let r = close_case(s, let_bindings, pattern, body, span_start, span);
    if let_bindings is Some && pattern is Some && body.len() > 0 && !pattern_waits(s.stack)
        && s.stack.len() > 0 && s.stack.last() is Match {
        stack_replaced(s.stack, r.stack.last());
        assert(r.stack =~= s.stack.drop_last().push(r.stack.last()));
        state_restacked(s, r);
    }
}

/// Closing a form leaves the forms around it in order.
proof fn closed_kept(s: StateV, f: FrameV, span: SpanV)
    ensures
        state_kept(s, closed(s, f, span)),
{
    broadcast use closing_keeps;

    state_same(s, s);
    match f {
        FrameV::PatternDecl { .. } => {},
        FrameV::CaseDecl { let_bindings, pattern, body, span_start } => {
            closed_case_kept(s, let_bindings, pattern, body, span_start, span);
        },
        FrameV::Dict { .. } => {},
        FrameV::Call { .. } => {},
        FrameV::Fn { .. } => {},
        FrameV::TypeAlias { .. } => {},
        FrameV::SyntaxClass { .. } => {},
        FrameV::Match { .. } => {},
        FrameV::ClassDecl { .. } => {},
        FrameV::InstanceDecl { .. } => {},
        FrameV::LetDecl { .. } => {},
        _ => {},
    }
}

proof fn close_step_kept(s: StateV, tokens: Seq<TokV>, i: int)
    ensures
        step_kept(s, close_step(s, tokens, i)),
{
    reveal(close_step);
    let span = tokens[i].span;
    if s.stack.len() > 0 && !(s.stack.last() is AnnotationCollect) {
        let f = s.stack.last();
        let popped = StateV {
            stack: s.stack.drop_last(),
            popped: Some((form_name(f), opened_at(f))),
            ..s
        };
        stack_popped(s.stack);
        state_restacked(s, popped);
        closed_kept(popped, f, span);
        state_twice(s, popped, closed(popped, f, span));
        closed_off_kept(s, closed(popped, f, span), span, tokens, i);
    }
}

proof fn colon_step_kept(s: StateV, tokens: Seq<TokV>, i: int)
    ensures
        step_kept(s, colon_step(s, tokens, i)),
{
    reveal(colon_step);
    let span = tokens[i].span;
    if s.stack.len() > 0 {
        let (f, error) = coloned(s.stack.last(), span);
        let after = StateV { stack: s.stack.drop_last().push(f), ..s };
        coloned_kept(s.stack.last(), span);
        stack_replaced(s.stack, f);
        state_restacked(s, after);
        match error {
            Some(e) => {
                failed_kept(s, after, e, span, tokens, i + 1);
            },
            None => {},
        }
    }
}

proof fn key_taken_kept(s: StateV, f: FrameV, span: SpanV, i: int)
    requires
        s.stack.len() > 0,
        keys_in_order(s.stack.last()) ==> keys_in_order(f),
        is_bracket(s.stack.last()),
    ensures
        step_kept(s, key_taken(s, f, span, i)),
{
    stack_replaced(s.stack, f);
    state_restacked(
        s,
        StateV {
            stack: s.stack.drop_last().push(f),
            last: Some(span),
            node: Some(span),
            ..s
        },
    );
}

proof fn literal_step_kept(s: StateV, node: NodeV, tokens: Seq<TokV>, i: int)
    ensures
        step_kept(s, literal_step(s, node, tokens, i)),
{
    reveal(literal_step);
    let span = tokens[i].span;
    settled_kept(s, node, span, tokens, i);
    if s.stack.len() > 0 {
        match dict_with_key(s.stack.last(), node) {
            Some(f) => {
                key_taken_kept(s, f, span, i);
            },
            None => {},
        }
    }
}

proof fn word_step_kept(s: StateV, word: Text, tokens: Seq<TokV>, i: int)
    ensures
        step_kept(s, word_step(s, word, tokens, i)),
{
    reveal(word_step);
    let span = tokens[i].span;
    settled_kept(s, var_node(word, false, span), span, tokens, i);
    if s.stack.len() > 0 {
        match with_word_key(s.stack.last(), word, span) {
            Some(f) => {
                key_taken_kept(s, f, span, i);
            },
            None => {},
        }
    }
}

proof fn field_put_kept(s: StateV, t: StateV, node: NodeV, tokens: Seq<TokV>, k: int)
    requires
        state_kept(s, t),
    ensures
        step_kept(s, field_put(t, node, tokens, k)),
{
    let p = placed(t.stack, t.items, node);
    placed_kept(t.stack, t.items, node);
    let u = with_placed(t, p);
    state_restacked(t, u);
    state_twice(s, t, u);
    match p.error {
        Some(e) => {
            failed_kept(s, u, e, node.span, tokens, k + 1);
        },
        None => {
            let chained = is_immediate_at(tokens, k + 1);
            let d = drained(p.stack, p.items, chained);
            drained_kept(p.stack, p.items, chained);
            let v = with_placed(t, d);
            stack_twice(t.stack, p.stack, d.stack);
            state_restacked(t, v);
            state_twice(s, t, v);
            match d.error {
                Some(e) => {
                    failed_kept(s, v, e, node.span, tokens, k + 1);
                },
                None => {
                    let w = StateV {
                        node: drained_node(p.stack, p.items, chained, Some(node.span)),
                        ..v
                    };
                    state_same(v, w);
                    state_twice(s, v, w);
                },
            }
        },
    }
}


proof fn field_step_kept(s: StateV, t: StateV, target: Option<NodeV>, tokens: Seq<TokV>, i: int)
    requires
        state_kept(s, t),
    ensures
        step_kept(s, field_step(t, target, tokens, i)),
{
    let span = tokens[i].span;
    let k = next_significant(tokens, i + 1);
    let after = StateV { comments: skipped(tokens, i + 1, t.comments), ..t };
    state_same(t, after);
    state_twice(s, t, after);
    assert forall|e: ErrV, from: int|
        step_kept(s, #[trigger] failed(after, e, span, tokens, from)) by {
        failed_kept(s, after, e, span, tokens, from);
    }
    assert forall|node: NodeV| step_kept(s, #[trigger] field_put(after, node, tokens, k)) by {
        field_put_kept(s, after, node, tokens, k);
    }
}

proof fn dot_step_kept(s: StateV, tokens: Seq<TokV>, i: int)
    ensures
        step_kept(s, dot_step(s, tokens, i)),
{
    reveal(dot_step);
    let span = tokens[i].span;
    match dot_target(s, span) {
        Err(_) => {},
        Ok((after, target)) => {
            stack_same(s.stack);
            taken_stack_kept(s.stack, span);
            state_restacked(s, after);
            field_step_kept(s, after, target, tokens, i);
        },
    }
}

proof fn pipe_step_kept(s: StateV, tokens: Seq<TokV>, i: int)
    ensures
        step_kept(s, pipe_step(s, tokens, i)),
{
    reveal(pipe_step);
    let span = tokens[i].span;
    if s.stack.len() == 0 {
        if s.items.len() > 0 && s.items.last() is Expr {
            let t = StateV { items: s.items.drop_last(), ..s };
            let n = s.items.last()->Expr_0;
            stack_pushed(s.stack, FrameV::Pipe { lhs: n, pipe_span: span });
            state_restacked(s, piped(t, n, span));
        }
    } else {
        let (stack, source) = taken_from_stack(s.stack, span);
        let after = StateV { stack, ..s };
        taken_stack_kept(s.stack, span);
        state_restacked(s, after);
        match source {
            Ok(Some(n)) => {
                stack_pushed(stack, FrameV::Pipe { lhs: n, pipe_span: span });
                state_restacked(after, piped(after, n, span));
                state_twice(s, after, piped(after, n, span));
            },
            Ok(None) => {
                failed_kept(
                    s,
                    after,
                    plain_err(no_pipe_source(), span),
                    span,
                    tokens,
                    i + 1,
                );
            },
            Err(e) => {
                failed_kept(s, after, e, span, tokens, i + 1);
            },
        }
    }
}

proof fn annotating_kept(s: StateV, t: StateV, target: TargetV, span: SpanV)
    requires
        state_kept(s, t),
    ensures
        state_kept(s, annotating(t, target, span)),
{
    stack_pushed(
        t.stack,
        FrameV::AnnotationCollect { target, value: None, span_start: span },
    );
    state_restacked(t, annotating(t, target, span));
    state_twice(s, t, annotating(t, target, span));
}

proof fn at_step_kept(s: StateV, tokens: Seq<TokV>, i: int)
    ensures
        step_kept(s, at_step(s, tokens, i)),
{
    reveal(at_step);
    let span = tokens[i].span;
    state_same(s, s);
    annotating_kept(s, s, TargetV::Floating, span);
    let (stack, target) = taken_from_stack(s.stack, span);
    let after = StateV { stack, ..s };
    taken_stack_kept(s.stack, span);
    state_restacked(s, after);
    match target {
        Err(_) => {},
        Ok(Some(n)) => {
            annotating_kept(s, after, TargetV::Attached(n), span);
        },
        Ok(None) => {
            annotating_kept(s, after, TargetV::Floating, span);
            if stack.len() == 0 && s.items.len() > 0 && s.items.last() is Expr {
                let t = StateV { items: s.items.drop_last(), ..after };
                state_same(after, t);
                state_twice(s, after, t);
                annotating_kept(s, t, TargetV::Attached(s.items.last()->Expr_0), span);
            }
        },
    }
}

proof fn placeholder_put_kept(s: StateV, t: StateV, node: NodeV, tokens: Seq<TokV>, next: int)
    requires
        state_kept(s, t),
    ensures
        step_kept(s, placeholder_put(t, node, tokens, next)),
{
    let p = placed(t.stack, t.items, node);
    placed_kept(t.stack, t.items, node);
    let u = with_placed(t, p);
    state_restacked(t, u);
    state_twice(s, t, u);
    match p.error {
        Some(e) => {
            failed_kept(s, u, e, node.span, tokens, next);
        },
        None => {
            let v = StateV { last: Some(node.span), ..with_node(t, p, node) };
            state_same(u, v);
            state_twice(s, u, v);
        },
    }
}

proof fn ellipsis_step_kept(s: StateV, tokens: Seq<TokV>, i: int)
    ensures
        step_kept(s, ellipsis_step(s, tokens, i)),
{
    reveal(ellipsis_step);
    let k = next_significant(tokens, i + 1);
    let after = StateV { comments: skipped(tokens, i + 1, s.comments), ..s };
    state_same(s, after);
    assert forall|node: NodeV, next: int|
        step_kept(s, #[trigger] placeholder_put(after, node, tokens, next)) by {
        placeholder_put_kept(s, after, node, tokens, next);
    }
    match annotation_at(tokens, k + 1, after.comments) {
        Ok(read) => {
            let t = StateV { comments: read.comments, ..after };
            state_same(s, t);
            assert forall|node: NodeV, next: int|
                step_kept(s, #[trigger] placeholder_put(t, node, tokens, next)) by {
                placeholder_put_kept(s, t, node, tokens, next);
            }
        },
        Err(_) => {},
    }
}

/// A step inside one document keeps what holds of every state.
proof fn kept_in_order(s: StateV, t: StateV)
    requires
        state_in_order(s),
        state_kept(s, t),
    ensures
        state_in_order(t),
        goes_on(s, t),
{
    reveal(state_kept);
    reveal(stack_kept);
    reveal(errors_added);
    assert(s.documents.subrange(0, s.documents.len() as int) =~= s.documents);
}

/// Whether a step stays in its document.
pub open spec fn stays(s: StateV, r: StepV) -> bool {
    r matches StepV::Next(t, _) ==> {
        &&& t.documents == s.documents
        &&& t.header == s.header
        &&& t.sections == s.sections
    }
}

/// What a step leads to: a state that is in order and goes on from the one before, or an error of
/// the parser.
pub open spec fn step_in_order(s: StateV, r: StepV) -> bool {
    match r {
        StepV::Next(t, _) => state_in_order(t) && goes_on(s, t),
        StepV::Fatal(d) => is_parse_error(d),
    }
}

proof fn step_kept_in_order(s: StateV, r: StepV)
    requires
        state_in_order(s),
        step_kept(s, r),
    ensures
        step_in_order(s, r),
        stays(s, r),
{
    match r {
        StepV::Next(t, _) => {
            kept_in_order(s, t);
            reveal(state_kept);
        },
        StepV::Fatal(_) => {},
    }
}


proof fn brackets_are_forms(stack: Seq<FrameV>)
    ensures
        open_brackets(stack) <= stack.len(),
    decreases stack.len(),
{
    if stack.len() > 0 {
        brackets_are_forms(stack.drop_last());
    }
}

/// A form is opened.
proof fn pushed_in_order(s: StateV, t: StateV, f: FrameV)
    requires
        state_in_order(s),
        s.stack.len() < MAX_PARSE_DEPTH,
        keys_in_order(f),
        t.stack == s.stack.push(f),
        t.diagnostics == s.diagnostics,
        same_document(s, t),
    ensures
        state_in_order(t),
        goes_on(s, t),
{
    brackets_are_forms(s.stack);
    assert(t.stack.drop_last() =~= s.stack);
    assert(s.diagnostics.subrange(0, s.diagnostics.len() as int) =~= s.diagnostics);
    assert(s.documents.subrange(0, s.documents.len() as int) =~= s.documents);
}

proof fn open_step_in_order(s: StateV, tokens: Seq<TokV>, i: int)
    requires
        state_in_order(s),
    ensures
        step_in_order(s, open_step(s, tokens, i)),
        stays(s, open_step(s, tokens, i)),
{
    reveal(open_step);
    let span = tokens[i].span;
    if s.stack.len() < MAX_PARSE_DEPTH {
        assert forall|t: StateV, f: FrameV|
            t.stack == s.stack && t.diagnostics == s.diagnostics && same_document(s, t)
                && keys_in_order(f) implies state_in_order(#[trigger] pushed(t, f)) && goes_on(
            s,
            pushed(t, f),
        ) by {
            pushed_in_order(s, pushed(t, f), f);
        }
        assert(step_in_order(s, opened_fn(s, span, tokens, i))) by {
            let c = StateV { comments: skipped(tokens, i + 1, s.comments), ..s };
            let open = pushed(c, fn_frame(span));
            let next = next_significant(tokens, i + 1) + 1;
            let f = FrameV::AnnotationCollect {
                target: TargetV::FnReturn,
                value: None,
                span_start: tokens[next].span,
            };
            assert(state_in_order(open) && goes_on(s, open));
            stack_pushed(open.stack, f);
            state_restacked(open, pushed(open, f));
            kept_in_order(open, pushed(open, f));
        }
    }
}

/// A header is read: the names in it stay apart.
spec fn header_kept(s: StateV, t: StateV) -> bool {
    &&& t.stack == s.stack
    &&& t.diagnostics == s.diagnostics
    &&& t.documents == s.documents
    &&& s.sections.subset_of(t.sections)
    &&& keys_unique(s.header) ==> keys_unique(t.header)
}

proof fn value_fails_in_order(
    tokens: Seq<TokV>,
    key: Text,
    start: int,
    i: int,
    open: Seq<(Seq<EntryV>, SpanV)>,
    comments: CommentsV,
)
    ensures
        value_from(tokens, key, start, i, open, comments) matches Err(d) ==> is_parse_error(d),
    decreases tokens.len() - i,
{
    if 0 <= i < tokens.len() {
        value_step_advances(tokens, key, start, i, open, comments);
        match value_step(tokens, key, start, i, open, comments) {
            ValueStepV::More(open, next, comments) => {
                value_fails_in_order(tokens, key, start, next, open, comments);
            },
            _ => {},
        }
    }
}

proof fn header_step_kept(s: StateV, tokens: Seq<TokV>, i: int)
    requires
        keys_unique(s.header),
    ensures
        match header_step(s, tokens, i) {
            HeaderStepV::More(t, _) => header_kept(s, t),
            HeaderStepV::Done(t, _) => header_kept(s, t),
            HeaderStepV::Failed(d) => is_parse_error(d),
        },
{
    match tokens[i].tok {
        TokenV::Identifier(word) => {
            value_fails_in_order(tokens, word, i + 2, i + 2, Seq::empty(), s.comments);
            assert forall|key: Text, node: NodeV|
                keys_unique(#[trigger] entry_put(s.header, key, node)) by {
                put_reads_back(s.header, key, node);
            }
            let name = without_percents(word);
            let named = entry_put(
                s.header,
                "name"@,
                string_node(name, tokens[i].span),
            );
            assert forall|key: Text, node: NodeV|
                keys_unique(#[trigger] entry_put(named, key, node)) by {
                put_reads_back(named, key, node);
            }
        },
        _ => {},
    }
}

proof fn header_from_kept(s: StateV, tokens: Seq<TokV>, i: int)
    requires
        keys_unique(s.header),
    ensures
        match header_from(s, tokens, i) {
            StepV::Next(t, _) => header_kept(s, t),
            StepV::Fatal(d) => is_parse_error(d),
        },
    decreases tokens.len() - i,
{
    if 0 <= i < tokens.len() {
        header_step_advances(s, tokens, i);
        header_step_kept(s, tokens, i);
        match header_step(s, tokens, i) {
            HeaderStepV::More(t, next) => {
                header_from_kept(t, tokens, next);
            },
            _ => {},
        }
    }
}

proof fn separator_step_in_order(s: StateV, tokens: Seq<TokV>, i: int)
    requires
        state_in_order(s),
    ensures
        step_in_order(s, separator_step(s, tokens, i)),
{
    reveal(separator_step);
    let span = tokens[i].span;
    if s.stack.len() == 0 {
        let t = document_ended(
            s,
            document_span(s.items, span),
        );
        assert forall|k: int| 0 <= k < t.documents.len() implies keys_unique(
            (#[trigger] t.documents[k]).header,
        ) by {
            if k < s.documents.len() {
                assert(t.documents[k] == s.documents[k]);
            }
        }
        assert(s.documents.is_prefix_of(t.documents)) by {
            assert(t.documents.subrange(0, s.documents.len() as int) =~= s.documents);
        }
        assert(s.diagnostics.subrange(0, s.diagnostics.len() as int) =~= s.diagnostics);
        header_from_kept(t, tokens, i + 1);
    }
}

/// A parse starts in order.
pub proof fn start_is_in_order()
    ensures
        state_in_order(start_state()),
{
}

/// Every token leaves the parse in order: at most `MAX_PARSE_DEPTH` brackets are open, no open dict
/// and no header holds a key twice, and every diagnostic is a parse error. What was reported and
/// what was complete stays. An error that ends the parse is a parse error too. Only a separator
/// ends a document.
pub proof fn step_keeps_order(s: StateV, tokens: Seq<TokV>, i: int)
    requires
        state_in_order(s),
        0 <= i < tokens.len(),
    ensures
        step_in_order(s, step(s, tokens, i)),
        !(tokens[i].tok is DocSeparator) ==> stays(s, step(s, tokens, i)),
{
    reveal(step);
    state_same(s, s);
    match tokens[i].tok {
        TokenV::OpenBracket => open_step_in_order(s, tokens, i),
        TokenV::DocSeparator => separator_step_in_order(s, tokens, i),
        TokenV::CloseBracket => close_step_kept(s, tokens, i),
        TokenV::Colon => colon_step_kept(s, tokens, i),
        TokenV::Comment(text) => {
            reveal(comment_step);
            match comment_step(s, text, tokens, i) {
                StepV::Next(t, _) => state_same(s, t),
                _ => {},
            }
        },
        TokenV::Newline | TokenV::Semicolon => {
            reveal(line_step);
            match line_step(s, tokens, i) {
                StepV::Next(t, _) => state_same(s, t),
                _ => {},
            }
        },
        TokenV::Dot => dot_step_kept(s, tokens, i),
        TokenV::Pipe => pipe_step_kept(s, tokens, i),
        TokenV::At | TokenV::ImmediateAt => at_step_kept(s, tokens, i),
        TokenV::Ellipsis => ellipsis_step_kept(s, tokens, i),
        TokenV::Identifier(word) => word_step_kept(s, word, tokens, i),
        TokenV::Let => word_step_kept(s, "let"@, tokens, i),
        TokenV::Case => word_step_kept(s, "case"@, tokens, i),
        _ => literal_step_kept(s, literal_node(tokens[i])->0, tokens, i),
    }
    if !(tokens[i].tok is OpenBracket || tokens[i].tok is DocSeparator) {
        step_kept_in_order(s, step(s, tokens, i));
    }
}

proof fn outcome_in_order(s: StateV, tokens: Seq<TokV>, i: int)
    requires
        state_in_order(s),
    ensures
        match outcome(s, tokens, i) {
            Ok(o) => only_parse_errors(o.diagnostics) && headers_in_order(o.documents)
                && s.diagnostics.is_prefix_of(o.diagnostics) && s.documents.is_prefix_of(
                o.documents,
            ),
            Err(d) => is_parse_error(d),
        },
    decreases tokens.len() - i,
{
    if 0 <= i < tokens.len() {
        step_advances(s, tokens, i);
        step_keeps_order(s, tokens, i);
        match step(s, tokens, i) {
            StepV::Next(after, next) => {
                outcome_in_order(after, tokens, next);
                match outcome(after, tokens, next) {
                    Ok(o) => {
                        prefix_twice(s.diagnostics, after.diagnostics, o.diagnostics);
                        prefix_twice(s.documents, after.documents, o.documents);
                    },
                    Err(_) => {},
                }
            },
            StepV::Fatal(_) => {},
        }
    } else if s.stack.len() == 0 {
        let all = all_documents(s, token_file(tokens));
        assert forall|k: int| 0 <= k < all.len() implies keys_unique(
            (#[trigger] all[k]).header,
        ) by {
            if k < s.documents.len() {
                assert(all[k] == s.documents[k]);
            }
        }
        assert(all.subrange(0, s.documents.len() as int) =~= s.documents);
        assert(s.diagnostics.subrange(0, s.diagnostics.len() as int) =~= s.diagnostics);
    }
}

proof fn prefix_twice<T>(a: Seq<T>, b: Seq<T>, c: Seq<T>)
    requires
        a.is_prefix_of(b),
        b.is_prefix_of(c),
    ensures
        a.is_prefix_of(c),
{
    assert(a =~= c.subrange(0, a.len() as int)) by {
        assert forall|i: int| 0 <= i < a.len() implies a[i] == c[i] by {
            assert(a[i] == b.subrange(0, a.len() as int)[i]);
            assert(b[i] == c.subrange(0, b.len() as int)[i]);
        }
    }
}

/// Whatever the source, everything that a parse reports is a parse error, and the names in every
/// header differ.
pub proof fn parse_reports_parse_errors(source: Text, file: Text)
    ensures
        match parsed(source, file) {
            Ok(o) => only_parse_errors(o.diagnostics) && headers_in_order(o.documents),
            Err(d) => is_parse_error(d),
        },
        only_parse_errors(output_of(parsed(source, file)).diagnostics),
{
    start_is_in_order();
    match tokens_of(source, file) {
        Ok(tokens) => {
            outcome_in_order(start_state(), tokens, 0);
        },
        Err(_) => {},
    }
}

/// A parse that goes on after every error loses none: where it ends early, the error that ended it
/// is its only diagnostic and no document is left.
pub proof fn recovery_keeps_the_error(source: Text, file: Text)
    ensures
        parsed(source, file) matches Err(d) ==> {
            &&& output_of(parsed(source, file)).diagnostics == seq![d]
            &&& output_of(parsed(source, file)).documents.len() == 0
        },
        parsed(source, file) matches Ok(o) ==> output_of(parsed(source, file)) == o,
{
}

/// A dict whose keys differ closes to entries whose keys differ.
pub proof fn closed_keys_differ(entries: Seq<EntryV>)
    requires
        keys_differ(entries),
    ensures
        keys_differ(respan(entries)),
{
    let after = respan(entries);
    assert(forall|i: int|
        0 <= i < entries.len() ==> entry_text(#[trigger] after[i]) == entry_text(entries[i]));
}

} // verus!
