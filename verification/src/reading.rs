//! A term that is written is read: the tokens of a term lead from a state to the one with its node.
use crate::annotate::{collected, drained, drained_node};
use crate::close::{close_step, closed, final_bindings, form_span};
use crate::colon::{colon_step, coloned};
use crate::diagnostic::DiagV;
use crate::frame::{form_name, opened_at, ErrV, FrameV, TargetV};
use crate::lexer::{decimal_is_digits, numeral_reads_back, token_of, TokV, TokenV};
use crate::model::{
    span_between, AnnotV, ArmV, DotKeyV, EntryV, ExprV, ItemV, NamedArgV, NodeV, ParamV, SpanV,
    Text,
};
use crate::node::{annotated_node, dot_path, key_text, named_class, var_node};
use crate::open::{
    case_frame, dict_frame, fn_frame, keyword_frame, let_frame, open_step, pushed, MAX_PARSE_DEPTH,
};
use crate::parser::{outcome, step};
use crate::operator::{
    at_step, dot_step, dot_target, ellipsis_step, field_node, field_put, pipe_step,
    placeholder_span,
};
use crate::place::{
    is_param, let_default, normal_key, only_params, param_of, params_of, pipe_node, place, placed,
};
use crate::scan::{digit, KindV};
use crate::state::{
    named_args, positional_args, respan, settled, with_node, with_placed, StateV, StepV,
};
use crate::stream::{insignificant, is_immediate_at, next_horizontal, next_significant};
use crate::take::{
    taken, taken_from_stack, taking_frees_the_key, taking_frees_the_name, taking_undoes_placing,
};
use crate::terms::{
    args_read, bare_count, behind_token, first_token, bind_lexis, bind_reads, binds_depth,
    binds_lexis, binds_read, clause_depth, clause_lexis, clause_reads, clauses_depth, clauses_lexis,
    clauses_read, depth, entries_read, entry_reads, form_lexis, grouped, head_name, key_label,
    key_lexis, key_reads, labels_differ, let_lexis, let_reads, lexis, named_first, no_groups,
    notable, note_reads, numeral, only_names, over, param_reads, params_read, parts_depth,
    parts_lexis, plain_name, primary, reads, sane, sane_bind, sane_binds, sane_clause, sane_clauses,
    sane_key, sane_parts, sane_terms, terms_depth, terms_lexis, terms_read, BindV, ClauseV, KeyV,
    PartV, TermV,
};
use crate::text::decimal;
use crate::value::{dict_with_key, literal_node, literal_step, with_word_key, word_step};
use vstd::prelude::*;

verus! {

/// Whether a token is what a lexeme is read as: an `@` behind a bracket floats, and any other is
/// attached to what stands before it.
pub open spec fn fits(ts: Seq<TokV>, j: int, kind: KindV) -> bool {
    if kind is At {
        if j > 0 && ts[j - 1].tok is OpenBracket {
            ts[j].tok is At
        } else {
            ts[j].tok is ImmediateAt
        }
    } else {
        token_of(kind, false) == Ok::<TokenV, Text>(ts[j].tok)
    }
}

/// Whether lexemes stand among tokens.
pub open spec fn written(ts: Seq<TokV>, i: int, ks: Seq<KindV>) -> bool {
    &&& 0 <= i
    &&& i + ks.len() <= ts.len()
    &&& forall|k: int| 0 <= k < ks.len() ==> fits(ts, i + k, #[trigger] ks[k])
}

/// Whether a token is neither the end of a line nor a comment, or there is none.
pub open spec fn significant(ts: Seq<TokV>, j: int) -> bool {
    !(0 <= j < ts.len() && insignificant(ts[j].tok))
}

/// Whether a colon comes next on the line.
pub open spec fn at_colon(ts: Seq<TokV>, j: int) -> bool {
    let k = next_horizontal(ts, j);
    0 <= k < ts.len() && ts[k].tok is Colon
}

pub(crate) proof fn written_parts(ts: Seq<TokV>, i: int, a: Seq<KindV>, b: Seq<KindV>)
    requires
        written(ts, i, a + b),
    ensures
        written(ts, i, a),
        written(ts, i + a.len(), b),
{
    let all = a + b;
    assert forall|k: int| 0 <= k < a.len() implies fits(ts, i + k, #[trigger] a[k]) by {
        assert(fits(ts, i + k, all[k]));
    }
    assert forall|k: int| 0 <= k < b.len() implies fits(ts, i + a.len() + k, #[trigger] b[k]) by {
        assert(fits(ts, i + (a.len() + k), all[a.len() + k]));
    }
}

pub(crate) proof fn next_is_here(ts: Seq<TokV>, i: int)
    requires
        significant(ts, i),
    ensures
        next_significant(ts, i) == i,
        next_horizontal(ts, i) == i,
{
}

/// Whether two states have the same tree, given the forms and the items.
pub open spec fn same_tree(t: StateV, stack: Seq<FrameV>, items: Seq<ItemV>, s: StateV) -> bool {
    &&& t.stack == stack
    &&& t.items == items
    &&& t.documents == s.documents
    &&& t.diagnostics == s.diagnostics
    &&& t.header == s.header
    &&& t.sections == s.sections
}

/// What is read from token `i` of one state leads to token `j` of another.
pub open spec fn goes_to(s: StateV, ts: Seq<TokV>, i: int, t: StateV, j: int) -> bool {
    outcome(s, ts, i) == outcome(t, ts, j)
}

pub(crate) proof fn step_goes(s: StateV, ts: Seq<TokV>, i: int, t: StateV, j: int)
    requires
        0 <= i < ts.len(),
        step(s, ts, i) == StepV::Next(t, j),
    ensures
        goes_to(s, ts, i, t, j),
{
}

/// Where a node can be put, what is read up to token `j` puts it there, and annotations that wait
/// for it are complete.
#[verifier::opaque]
pub open spec fn lands(s: StateV, ts: Seq<TokV>, i: int, n: NodeV, t: StateV, j: int) -> bool {
    let p = placed(s.stack, s.items, n);
    let d = drained(p.stack, p.items, false);
    p.error is None && d.error is None ==> goes_to(s, ts, i, t, j) && same_tree(
        t,
        d.stack,
        d.items,
        s,
    )
}

/// Whether no annotation waits for what is read next.
pub open spec fn quiet(s: StateV) -> bool {
    s.stack.len() > 0 ==> !(s.stack.last() is AnnotationCollect) && (s.stack.last() is Pipe ==> (
    s.stack.len() > 1 ==> !(s.stack[s.stack.len() - 2] is AnnotationCollect)
        && !(s.stack[s.stack.len() - 2] is Pipe)))
}

proof fn quiet_drains(s: StateV, n: NodeV)
    requires
        quiet(s),
    ensures
        ({
            let p = placed(s.stack, s.items, n);
            &&& forall|c: bool|
                #![trigger drained(p.stack, p.items, c)]
                drained(p.stack, p.items, c).stack == p.stack && drained(
                    p.stack,
                    p.items,
                    c,
                ).items == p.items && drained(p.stack, p.items, c).error is None
        }),
{
    reveal_with_fuel(placed, 3);
    let p = placed(s.stack, s.items, n);
    if s.stack.len() > 0 && s.stack.last() is Pipe {
        let below = s.stack.drop_last();
        if below.len() > 0 {
            assert(below.last() == s.stack[s.stack.len() - 2]);
            let m = crate::place::pipe_node(
                s.stack.last()->Pipe_lhs,
                s.stack.last()->Pipe_pipe_span,
                n,
            );
            assert(p == placed(below, s.items, m));
            keeps_kind(below.last(), m);
        }
    } else if s.stack.len() > 0 {
        keeps_kind(s.stack.last(), n);
    }
}

/// A form stays the form that it is.
proof fn keeps_kind(f: FrameV, n: NodeV)
    ensures
        f is AnnotationCollect <==> place(f, n).0 is AnnotationCollect,
        f is Pipe <==> place(f, n).0 is Pipe,
        f is LetDecl <==> place(f, n).0 is LetDecl,
{
}

/// A node that is settled lands.
pub(crate) proof fn settled_lands(s: StateV, n: NodeV, span: SpanV, ts: Seq<TokV>, i: int) -> (t: StateV)
    requires
        0 <= i < ts.len(),
        step(s, ts, i) == settled(s, n, span, ts, i),
        is_immediate_at(ts, i + 1) ==> quiet(s),
    ensures
        lands(s, ts, i, n, t, i + 1),
{
    reveal(lands);
    let p = placed(s.stack, s.items, n);
    let chained = is_immediate_at(ts, i + 1);
    let d = drained(p.stack, p.items, chained);
    if chained {
        quiet_drains(s, n);
        let e = drained(p.stack, p.items, false);
        assert(d.stack == e.stack && d.items == e.items);
    }
    let b = with_node(s, p, n);
    let t = StateV {
        last: Some(span),
        node: drained_node(b.stack, b.items, chained, b.node),
        ..with_placed(b, d)
    };
    if p.error is None && d.error is None {
        assert(step(s, ts, i) == StepV::Next(t, i + 1));
        step_goes(s, ts, i, t, i + 1);
    }
    t
}

/// Whether a form is closed into a node.
#[verifier::opaque]
pub open spec fn shuts(f: FrameV, n: NodeV, span: SpanV) -> bool {
    forall|p: StateV|
        placed(p.stack, p.items, n).error is None ==> #[trigger] closed(p, f, span) == with_node(
            p,
            placed(p.stack, p.items, n),
            n,
        )
}

/// What a form is closed into lands.
proof fn closed_lands(
    s: StateV,
    inner: StateV,
    f: FrameV,
    n: NodeV,
    ts: Seq<TokV>,
    i: int,
    j: int,
) -> (t: StateV)
    requires
        0 <= j < ts.len(),
        ts[j].tok is CloseBracket,
        goes_to(s, ts, i, inner, j),
        same_tree(inner, s.stack.push(f), s.items, s),
        !(f is AnnotationCollect),
        is_immediate_at(ts, j + 1) ==> quiet(s),
        shuts(f, n, ts[j].span),
    ensures
        lands(s, ts, i, n, t, j + 1),
{
    reveal(step);
    reveal(close_step);
    reveal(lands);
    reveal(shuts);
    let span = ts[j].span;
    let popped = StateV { stack: s.stack, popped: Some((form_name(f), opened_at(f))), ..inner };
    assert(inner.stack.drop_last() =~= s.stack);
    assert(inner.stack.last() == f);
    let p = placed(s.stack, s.items, n);
    let chained = is_immediate_at(ts, j + 1);
    let d = drained(p.stack, p.items, chained);
    if chained {
        quiet_drains(s, n);
        let e = drained(p.stack, p.items, false);
        assert(d.stack == e.stack && d.items == e.items);
    }
    let b = with_node(popped, p, n);
    let t = StateV {
        last: Some(span),
        node: drained_node(b.stack, b.items, chained, b.node),
        ..with_placed(b, d)
    };
    if p.error is None && d.error is None {
        assert(step(inner, ts, j) == StepV::Next(t, j + 1));
        step_goes(inner, ts, j, t, j + 1);
    }
    t
}

/// A node lands in a form that is open.
pub(crate) proof fn lands_inside(
    s: StateV,
    f: FrameV,
    t: StateV,
    ts: Seq<TokV>,
    i: int,
    n: NodeV,
    u: StateV,
    j: int,
)
    requires
        same_tree(t, s.stack.push(f), s.items, s),
        lands(t, ts, i, n, u, j),
        !(f is Pipe),
        !(f is AnnotationCollect),
        place(f, n).1 is None,
    ensures
        goes_to(t, ts, i, u, j),
        same_tree(u, s.stack.push(place(f, n).0), s.items, s),
{
    reveal(lands);
    assert(t.stack.last() == f);
    assert(t.stack.drop_last() =~= s.stack);
    quiet_drains(t, n);
}

// Terms of one token.

pub open spec fn atom(w: TermV) -> bool {
    match w {
        TermV::Int(_) | TermV::U64(_) | TermV::Float(_) => true,
        TermV::Str { .. } | TermV::Name(_) | TermV::Ref(_) => true,
        _ => false,
    }
}

/// The node of an atom.
spec fn atom_node(w: TermV, span: SpanV) -> NodeV {
    NodeV {
        expr: match w {
            TermV::Int(n) => ExprV::Int(n),
            TermV::U64(n) => ExprV::U64(n),
            TermV::Float(s) => ExprV::Float(s),
            TermV::Str { prefix, delimiter, content } => ExprV::StringLiteral {
                prefix,
                delimiter,
                content,
            },
            TermV::Name(s) => ExprV::VarRef { name: s, escaped: false, annotation: None },
            TermV::Ref(s) => ExprV::VarRef { name: s, escaped: true, annotation: None },
            _ => ExprV::Int(0),
        },
        span,
    }
}

pub(crate) proof fn numeral_is_token(n: int)
    requires
        i64::MIN <= n <= u64::MAX,
    ensures
        token_of(numeral(n), false) == Ok::<TokenV, Text>(
            if n <= i64::MAX {
                TokenV::Int(n as i64)
            } else {
                TokenV::U64Lit(n as u64)
            },
        ),
{
    if n <= i64::MAX {
        numeral_reads_back(n as i64);
    } else {
        decimal_is_digits(n as nat);
        assert(digit(decimal(n as nat)[0]));
    }
}

pub(crate) proof fn word_is_token(s: Text)
    requires
        plain_name(s),
    ensures
        token_of(KindV::Word(s), false) == Ok::<TokenV, Text>(TokenV::Identifier(s)),
{
}

/// A host in which a colon behind a term does not make it a key.
pub open spec fn matching(s: StateV) -> bool {
    s.stack.len() > 0 && s.stack.last() is Match
}

proof fn atom_is_read(w: TermV, s: StateV, ts: Seq<TokV>, i: int) -> (r: (StateV, NodeV))
    requires
        atom(w),
        sane(w),
        written(ts, i, lexis(w)),
        is_immediate_at(ts, i + 1) ==> quiet(s),
        at_colon(ts, i + 1) ==> !(w is Name) && matching(s),
    ensures
        reads(r.1, w, ts, i),
        lands(s, ts, i, r.1, r.0, i + 1),
        r.1 == atom_node(w, ts[i].span),
{
    reveal(step);
    reveal(word_step);
    reveal(literal_step);
    assert(fits(ts, i + 0, lexis(w)[0]));
    let n = atom_node(w, ts[i].span);
    match w {
        TermV::Int(k) => {
            numeral_is_token(k as int);
        },
        TermV::U64(k) => {
            numeral_is_token(k as int);
        },
        TermV::Name(name) => {
            word_is_token(name);
        },
        _ => {},
    }
    assert(step(s, ts, i) == settled(s, n, ts[i].span, ts, i));
    let t = settled_lands(s, n, ts[i].span, ts, i);
    (t, n)
}

// Forms that take any term.

/// Whether a form takes any term, and gives it back.
pub open spec fn steady_frame(f: FrameV) -> bool {
    match f {
        FrameV::Dict { pending_key, seen_keys, .. } => pending_key matches Some(k) ==> (key_text(
            normal_key(k).expr,
        ) matches Some(text) ==> !seen_keys.contains(text)),
        FrameV::Call { .. } => true,
        FrameV::Fn { params_consumed, .. } => params_consumed,
        FrameV::Quote { expr, .. } => expr is None,
        FrameV::Unquote { expr, .. } => expr is None,
        FrameV::UnquoteSplice { expr, .. } => expr is None,
        FrameV::Match { scrutinee, arms, pending_pattern_expr, pending_pattern, .. } => {
            &&& pending_pattern_expr is None
            &&& scrutinee is None ==> pending_pattern is None && arms.len() == 0
        },
        FrameV::CaseDecl { let_bindings, pattern, body, .. } => let_bindings is Some && (pattern
            is None ==> body.len() == 0),
        _ => false,
    }
}

pub open spec fn steady(s: StateV) -> bool {
    s.stack.len() > 0 ==> steady_frame(s.stack.last())
}

proof fn steady_takes(f: FrameV, n: NodeV)
    requires
        steady_frame(f),
    ensures
        place(f, n).1 is None,
        !(f is Pipe),
        !(f is AnnotationCollect),
        !(f is LetDecl),
{
}

/// Whether two forms take a term in the same way.
spec fn alike(g: FrameV, f: FrameV) -> bool {
    &&& steady_frame(g)
    &&& forall|m: NodeV| #[trigger] place(g, m) == place(f, m)
}

proof fn gives_back(f: FrameV, n: NodeV, span: SpanV)
    requires
        steady_frame(f),
        !(n.expr is Decl),
    ensures
        taken(place(f, n).0, span).1 == Ok::<Option<NodeV>, ErrV>(Some(n)),
        alike(taken(place(f, n).0, span).0, f),
{
    steady_takes(f, n);
    let g = taken(place(f, n).0, span).0;
    match f {
        FrameV::Dict { pending_key: Some(raw), .. } => {
            taking_frees_the_key(f, n, span);
            assert(named_class(n, normal_key(raw)) == n);
            assert(normal_key(normal_key(raw)) == normal_key(raw));
            assert forall|m: NodeV| #[trigger] place(g, m) == place(f, m) by {}
        },
        FrameV::Call { pending_key: Some((name, at, ann)), .. } => {
            taking_frees_the_name(f, name, at, ann, n, span);
            assert forall|m: NodeV| #[trigger] place(g, m) == place(f, m) by {}
        },
        _ => {
            taking_undoes_placing(f, n, span);
        },
    }
}

/// A term that was put into a form is taken out again, and another takes its place.
proof fn taken_again(s: StateV, n: NodeV, t: StateV, span: SpanV) -> (stack: Seq<FrameV>)
    requires
        steady(s),
        !(n.expr is Decl),
        same_tree(
            t,
            placed(s.stack, s.items, n).stack,
            placed(s.stack, s.items, n).items,
            s,
        ),
    ensures
        stack.len() == s.stack.len(),
        stack.len() > 0 ==> steady_frame(stack.last()),
        forall|m: NodeV| #[trigger] placed(stack, s.items, m) == placed(s.stack, s.items, m),
        s.stack.len() == 0 ==> t.stack.len() == 0 && t.items.len() > 0 && t.items.last()
            == ItemV::Expr(n) && t.items.drop_last() == s.items,
        s.stack.len() > 0 ==> t.items == s.items && taken_from_stack(t.stack, span) == (
            stack,
            Ok::<Option<NodeV>, ErrV>(Some(n)),
        ),
{
    if s.stack.len() == 0 {
        assert(t.items.drop_last() =~= s.items);
        s.stack
    } else {
        let f = s.stack.last();
        steady_takes(f, n);
        gives_back(f, n, span);
        assert(t.stack.last() == place(f, n).0);
        assert(t.stack.drop_last() =~= s.stack.drop_last());
        let g = taken(place(f, n).0, span).0;
        let stack = s.stack.drop_last().push(g);
        assert forall|m: NodeV| #[trigger] placed(stack, s.items, m) == placed(
            s.stack,
            s.items,
            m,
        ) by {
            steady_takes(g, m);
            assert(place(g, m) == place(f, m));
            assert(stack.drop_last() =~= s.stack.drop_last());
        }
        stack
    }
}

/// Whether a term stands at token `i` where it is read as that term.
pub open spec fn hosted(w: TermV, s: StateV, ts: Seq<TokV>, i: int) -> bool {
    let j = i + lexis(w).len();
    &&& sane(w)
    &&& written(ts, i, lexis(w))
    &&& s.stack.len() + depth(w) <= MAX_PARSE_DEPTH
    &&& is_immediate_at(ts, j) ==> quiet(s) && notable(w)
    &&& at_colon(ts, j) ==> primary(w) && !(w is Name) && (matching(s) || w is Call)
    &&& s.stack.len() > 0 && s.stack.last() is LetDecl ==> atom(w)
    &&& !primary(w) ==> steady(s)
    &&& w is Rest ==> quiet(s)
}

/// A term starts with a word if and only if it starts with a name.
pub(crate) proof fn first_lexeme(w: TermV)
    requires
        sane(w),
    ensures
        lexis(w).len() > 0,
        lexis(w)[0] is Word <==> named_first(w),
        lexis(w)[0] matches KindV::Word(s) ==> plain_name(s),
        !(lexis(w)[0] is At || lexis(w)[0] is Colon || lexis(w)[0] is Close),
        !(lexis(w)[0] is Newline || lexis(w)[0] is Semicolon || lexis(w)[0] is Comment),
    decreases w,
{
    match w {
        TermV::Field { target, name } => {
            first_lexeme(*target);
            let rest = seq![KindV::Dot, KindV::Word(name)];
            assert(lexis(w) == lexis(*target) + rest);
        },
        TermV::Index { target, place } => {
            first_lexeme(*target);
            let rest = seq![KindV::Dot, numeral(place as int)];
            assert(lexis(w) == lexis(*target) + rest);
        },
        TermV::Noted { target, note } => {
            first_lexeme(*target);
            assert(lexis(w) == lexis(*target) + seq![KindV::At] + lexis(*note));
        },
        TermV::Pipe { lhs, rhs } => {
            first_lexeme(*lhs);
            assert(lexis(w) == lexis(*lhs) + seq![KindV::Pipe] + lexis(*rhs));
        },
        TermV::Let(bs) => {
            assert(let_lexis(bs)[0] is Open);
        },
        _ => {},
    }
}

/// What a term is read as, as far as the forms around it look at it.
proof fn read_kind(n: NodeV, w: TermV, ts: Seq<TokV>, a: int)
    requires
        reads(n, w, ts, a),
    ensures
        !(n.expr is Decl),
        !(n.expr is Error),
        !grouped(w) ==> !(n.expr is TypeAssert || n.expr is Pipe),
{
    match w {
        TermV::Let(bs) => {
            assert(let_reads(n, bs, ts, a));
        },
        TermV::Noted { target, .. } => {},
        _ => {},
    }
}

/// What stands behind a term.
pub open spec fn calm_end(ts: Seq<TokV>, j: int) -> bool {
    significant(ts, j) && !at_colon(ts, j) && !is_immediate_at(ts, j)
}

pub(crate) proof fn first_is_calm(w: TermV, ts: Seq<TokV>, j: int)
    requires
        sane(w),
        written(ts, j, lexis(w)),
    ensures
        calm_end(ts, j),
        j < ts.len(),
        !(ts[j].tok is Colon || ts[j].tok is CloseBracket || ts[j].tok is At),
        !(ts[j].tok is Let || ts[j].tok is Case),
        ts[j].tok is Identifier <==> named_first(w),
{
    first_lexeme(w);
    assert(fits(ts, j + 0, lexis(w)[0]));
    match lexis(w)[0] {
        KindV::Word(s) => {
            word_is_token(s);
        },
        _ => {},
    }
}

// Dicts.

pub(crate) proof fn part_of(ps: Seq<PartV>, n: int, k: int, ts: Seq<TokV>, a: int)
    requires
        0 <= k < n <= ps.len(),
        sane_parts(ps, n),
        written(ts, a, parts_lexis(ps, n)),
    ensures
        sane_key(ps[k].key),
        sane(ps[k].value),
        depth(ps[k].value) <= parts_depth(ps, n),
        ({
            let at = a + parts_lexis(ps, k).len();
            &&& written(ts, at, key_lexis(ps[k].key))
            &&& written(ts, at + key_lexis(ps[k].key).len(), lexis(ps[k].value))
            &&& at + key_lexis(ps[k].key).len() + lexis(ps[k].value).len() == a + parts_lexis(
                ps,
                k + 1,
            ).len()
            &&& a + parts_lexis(ps, k + 1).len() <= a + parts_lexis(ps, n).len()
        }),
    decreases n,
{
    let before = parts_lexis(ps, n - 1);
    let key = key_lexis(ps[n - 1].key);
    let value = lexis(ps[n - 1].value);
    written_parts(ts, a, before + key, value);
    written_parts(ts, a, before, key);
    if k < n - 1 {
        part_of(ps, n - 1, k, ts, a);
    }
}

/// What stands behind the first `n` parts.
proof fn behind_part(ps: Seq<PartV>, n: int, ts: Seq<TokV>, a: int)
    requires
        0 <= n <= ps.len(),
        sane_parts(ps, ps.len() as int),
        written(ts, a, parts_lexis(ps, ps.len() as int)),
        ({
            let e = a + parts_lexis(ps, ps.len() as int).len();
            e < ts.len() ==> ts[e].tok is CloseBracket
        }),
    ensures
        calm_end(ts, a + parts_lexis(ps, n).len()),
{
    if n < ps.len() {
        part_of(ps, ps.len() as int, n, ts, a);
        let at = a + parts_lexis(ps, n).len();
        let key = ps[n].key;
        match key {
            KeyV::Bare => {
                first_is_calm(ps[n].value, ts, at);
            },
            _ => {
                key_is_token(key, ts, at);
            },
        }
    }
}

pub(crate) proof fn key_is_token(key: KeyV, ts: Seq<TokV>, at: int)
    requires
        sane_key(key),
        !(key is Bare),
        written(ts, at, key_lexis(key)),
    ensures
        ts[at + 1].tok is Colon,
        match key {
            KeyV::Bare => true,
            KeyV::Name(s) => ts[at].tok == TokenV::Identifier(s),
            KeyV::Quoted { prefix, delimiter, content } => ts[at].tok == (TokenV::StringLiteral {
                prefix,
                delimiter,
                content,
            }),
            KeyV::Number(n) => ts[at].tok == TokenV::Int(n),
        },
{
    assert(fits(ts, at + 0, key_lexis(key)[0]));
    assert(fits(ts, at + 1, key_lexis(key)[1]));
    match key {
        KeyV::Name(s) => {
            word_is_token(s);
        },
        KeyV::Number(n) => {
            numeral_is_token(n as int);
        },
        _ => {},
    }
}

/// Whether entries agree in their keys and values.
pub open spec fn entries_agree(es: Seq<EntryV>, fs: Seq<EntryV>, n: int) -> bool {
    forall|k: int|
        0 <= k < n ==> (#[trigger] es[k]).key == fs[k].key && es[k].value == fs[k].value
}

pub(crate) proof fn agreeing_entries_read(
    es: Seq<EntryV>,
    fs: Seq<EntryV>,
    ps: Seq<PartV>,
    n: int,
    ts: Seq<TokV>,
    a: int,
)
    requires
        entries_agree(es, fs, n),
        entries_read(es, ps, n, ts, a),
        0 <= n <= ps.len(),
    ensures
        entries_read(fs, ps, n, ts, a),
    decreases n,
{
    if n > 0 {
        agreeing_entries_read(es, fs, ps, n - 1, ts, a);
        assert(es[n - 1].key == fs[n - 1].key);
        let at = a + parts_lexis(ps, n - 1).len();
        assert(entry_reads(es[n - 1], ps[n - 1], ts, at));
        assert(entry_reads(fs[n - 1], ps[n - 1], ts, at));
    }
}

/// Whether one of the first `n` parts has a key.
pub(crate) open spec fn labelled(ps: Seq<PartV>, n: int, text: Text) -> bool {
    exists|j: int| 0 <= j < n && key_label((#[trigger] ps[j]).key) == Some(text)
}

/// An open dict whose entries are what the first `n` parts are read as.
pub(crate) open spec fn dict_holds(
    f: FrameV,
    ps: Seq<PartV>,
    n: int,
    ts: Seq<TokV>,
    a: int,
    start: SpanV,
) -> bool {
    match f {
        FrameV::Dict { entries, pending_key, seen_keys, span_start, floating_annotation } => {
            &&& span_start == start
            &&& pending_key is None
            &&& floating_annotation is None
            &&& entries.len() == n
            &&& entries_read(entries, ps, n, ts, a)
            &&& forall|t: Text| #[trigger] seen_keys.contains(t) ==> labelled(ps, n, t)
        },
        _ => false,
    }
}

pub(crate) proof fn quotes_are_quotes()
    ensures
        "\""@ == seq!['"'],
{
    reveal_strlit("\"");
    assert("\""@ =~= seq!['"']);
}

/// A colon is read by the form that it stands in.
pub(crate) proof fn colon_is_passed(u: StateV, ts: Seq<TokV>, j: int, g: FrameV) -> (t: StateV)
    requires
        0 <= j < ts.len(),
        ts[j].tok is Colon,
        u.stack.len() > 0,
        coloned(u.stack.last(), ts[j].span) == (g, None::<ErrV>),
    ensures
        goes_to(u, ts, j, t, j + 1),
        t == (StateV { stack: u.stack.drop_last().push(g), ..u }),
{
    reveal(step);
    reveal(colon_step);
    let t = StateV { stack: u.stack.drop_last().push(g), ..u };
    assert(step(u, ts, j) == StepV::Next(t, j + 1));
    step_goes(u, ts, j, t, j + 1);
    t
}

/// A word before a colon waits as a key.
pub(crate) proof fn word_key_is_taken(u: StateV, ts: Seq<TokV>, i: int, name: Text, g: FrameV) -> (t: StateV)
    requires
        0 <= i,
        i + 1 < ts.len(),
        ts[i].tok == TokenV::Identifier(name),
        ts[i + 1].tok is Colon,
        u.stack.len() > 0,
        with_word_key(u.stack.last(), name, ts[i].span) == Some(g),
    ensures
        goes_to(u, ts, i, t, i + 1),
        same_tree(t, u.stack.drop_last().push(g), u.items, u),
{
    reveal(step);
    reveal(word_step);
    next_is_here(ts, i + 1);
    let span = ts[i].span;
    let t = StateV {
        stack: u.stack.drop_last().push(g),
        last: Some(span),
        node: Some(span),
        ..u
    };
    assert(step(u, ts, i) == StepV::Next(t, i + 1));
    step_goes(u, ts, i, t, i + 1);
    t
}

/// A literal before a colon waits as a key.
proof fn literal_key_is_taken(u: StateV, ts: Seq<TokV>, i: int, g: FrameV) -> (t: StateV)
    requires
        0 <= i,
        i + 1 < ts.len(),
        ts[i].tok is Int || ts[i].tok is StringLiteral,
        ts[i + 1].tok is Colon,
        u.stack.len() > 0,
        dict_with_key(u.stack.last(), literal_node(ts[i])->0) == Some(g),
    ensures
        goes_to(u, ts, i, t, i + 1),
        same_tree(t, u.stack.drop_last().push(g), u.items, u),
{
    reveal(step);
    reveal(literal_step);
    next_is_here(ts, i + 1);
    let span = ts[i].span;
    let t = StateV {
        stack: u.stack.drop_last().push(g),
        last: Some(span),
        node: Some(span),
        ..u
    };
    assert(step(u, ts, i) == StepV::Next(t, i + 1));
    step_goes(u, ts, i, t, i + 1);
    t
}

/// The key of an entry is read: it waits for its value.
proof fn dict_key_is_read(
    key: KeyV,
    s: StateV,
    f: FrameV,
    u: StateV,
    ts: Seq<TokV>,
    at: int,
) -> (r: (StateV, NodeV))
    requires
        sane_key(key),
        !(key is Bare),
        written(ts, at, key_lexis(key)),
        same_tree(u, s.stack.push(f), s.items, s),
        f is Dict,
        f->Dict_pending_key is None,
    ensures
        goes_to(u, ts, at, r.0, at + 2),
        key_reads(r.1, key, ts, at),
        key_text(r.1.expr) == key_label(key),
        normal_key(r.1) == r.1,
        same_tree(
            r.0,
            s.stack.push(
                FrameV::Dict {
                    entries: f->Dict_entries,
                    pending_key: Some(r.1),
                    seen_keys: f->Dict_seen_keys,
                    span_start: f->Dict_span_start,
                    floating_annotation: f->Dict_floating_annotation,
                },
            ),
            s.items,
            s,
        ),
{
    key_is_token(key, ts, at);
    quotes_are_quotes();
    let span = ts[at].span;
    let n = match key {
        KeyV::Name(s) => crate::node::string_node(s, span),
        _ => literal_node(ts[at])->0,
    };
    assert(u.stack.last() == f);
    let g = dict_with_key(f, n)->0;
    let b = match key {
        KeyV::Name(name) => word_key_is_taken(u, ts, at, name, g),
        _ => literal_key_is_taken(u, ts, at, g),
    };
    assert(b.stack =~= s.stack.push(g));
    assert(b.stack.last() == g);
    let c = colon_is_passed(b, ts, at + 1, g);
    assert(c.stack =~= s.stack.push(g));
    (c, n)
}

/// A bracket opens a dict.
proof fn dict_opens(ps: Seq<PartV>, s: StateV, ts: Seq<TokV>, i: int)
    requires
        hosted(TermV::Dict(ps), s, ts, i),
    ensures
        goes_to(s, ts, i, pushed(s, dict_frame(ts[i].span)), i + 1),
        ts[i].tok is OpenBracket,
        written(ts, i + 1, parts_lexis(ps, ps.len() as int)),
        ({
            let e = i + 1 + parts_lexis(ps, ps.len() as int).len();
            e < ts.len() && ts[e].tok is CloseBracket
        }),
{
    reveal(step);
    reveal(open_step);
    let n = ps.len() as int;
    let inner = parts_lexis(ps, n);
    let w = TermV::Dict(ps);
    written_parts(ts, i, seq![KindV::Open] + inner, seq![KindV::Close]);
    written_parts(ts, i, seq![KindV::Open], inner);
    assert(fits(ts, i + 0, seq![KindV::Open][0]));
    let e = i + 1 + inner.len();
    assert(fits(ts, e + 0, seq![KindV::Close][0]));
    if n > 0 {
        part_of(ps, n, 0, ts, i + 1);
        match ps[0].key {
            KeyV::Bare => {
                first_is_calm(ps[0].value, ts, i + 1);
            },
            _ => {
                key_is_token(ps[0].key, ts, i + 1);
                next_is_here(ts, i + 2);
            },
        }
    }
    next_is_here(ts, i + 1);
    let t = pushed(s, dict_frame(ts[i].span));
    assert(step(s, ts, i) == StepV::Next(t, i + 1));
    step_goes(s, ts, i, t, i + 1);
}

pub(crate) proof fn dict_parts_are_read(
    ps: Seq<PartV>,
    n: int,
    s: StateV,
    u: StateV,
    ts: Seq<TokV>,
    a: int,
    start: SpanV,
) -> (r: (StateV, FrameV))
    requires
        0 <= n <= ps.len(),
        sane_parts(ps, ps.len() as int),
        labels_differ(ps),
        written(ts, a, parts_lexis(ps, ps.len() as int)),
        ({
            let e = a + parts_lexis(ps, ps.len() as int).len();
            e < ts.len() ==> ts[e].tok is CloseBracket
        }),
        s.stack.len() + 1 + parts_depth(ps, ps.len() as int) <= MAX_PARSE_DEPTH,
        same_tree(u, s.stack.push(dict_frame(start)), s.items, s),
    ensures
        goes_to(u, ts, a, r.0, a + parts_lexis(ps, n).len()),
        same_tree(r.0, s.stack.push(r.1), s.items, s),
        dict_holds(r.1, ps, n, ts, a, start),
    decreases ps, n,
{
    if n == 0 {
        (u, dict_frame(start))
    } else {
        let (b, f) = dict_parts_are_read(ps, n - 1, s, u, ts, a, start);
        let p = ps[n - 1];
        let at = a + parts_lexis(ps, n - 1).len();
        let len = ps.len() as int;
        part_of(ps, len, n - 1, ts, a);
        behind_part(ps, n, ts, a);
        let (c, g) = match p.key {
            KeyV::Bare => (b, f),
            _ => {
                let (c, k) = dict_key_is_read(p.key, s, f, b, ts, at);
                assert(c.stack.last()->Dict_pending_key == Some(k));
                (c, c.stack.last())
            },
        };
        assert(c.stack =~= s.stack.push(g));
        assert(steady_frame(g)) by {
            if !(p.key is Bare) {
                let k = g->Dict_pending_key->0;
                let text = key_label(p.key)->0;
                if g->Dict_seen_keys.contains(text) {
                    assert(f->Dict_seen_keys.contains(text));
                    let j = choose|j: int|
                        0 <= j < n - 1 && key_label((#[trigger] ps[j]).key) == Some(text);
                    assert(key_label(ps[j].key) != key_label(ps[n - 1].key));
                }
            }
        }
        let from = at + key_lexis(p.key).len();
        assert(c.stack.last() == g);
        let (d, m) = term_is_read(p.value, c, ts, from);
        steady_takes(g, m);
        lands_inside(s, g, c, ts, from, m, d, from + lexis(p.value).len());
        read_kind(m, p.value, ts, from);
        let h = place(g, m).0;
        assert(dict_holds(h, ps, n, ts, a, start)) by {
            let es = f->Dict_entries;
            let fs = h->Dict_entries;
            if !(p.key is Bare) {
                let k = g->Dict_pending_key->0;
                assert(named_class(m, k) == m);
            }
            assert(fs.len() == n);
            assert(entries_agree(es, fs, n - 1));
            agreeing_entries_read(es, fs, ps, n - 1, ts, a);
            assert(entry_reads(fs[n - 1], p, ts, at));
            assert forall|t: Text| #[trigger] h->Dict_seen_keys.contains(t) implies labelled(
                ps,
                n,
                t,
            ) by {
                if f->Dict_seen_keys.contains(t) {
                    let j = choose|j: int|
                        0 <= j < n - 1 && key_label((#[trigger] ps[j]).key) == Some(t);
                    assert(key_label(ps[j].key) == Some(t));
                } else {
                    assert(key_label(ps[n - 1].key) == Some(t));
                }
            }
        }
        (d, h)
    }
}

spec fn dict_node(f: FrameV, span: SpanV) -> NodeV {
    NodeV {
        expr: ExprV::Dict(respan(f->Dict_entries)),
        span: form_span(f->Dict_span_start, span),
    }
}

proof fn dict_shuts(f: FrameV, span: SpanV)
    requires
        f is Dict,
        f->Dict_pending_key is None,
        f->Dict_floating_annotation is None,
        ({
            let es = f->Dict_entries;
            es.len() == 1 && es[0].key is None ==> !(es[0].value.expr is TypeAssert
                || es[0].value.expr is Pipe)
        }),
    ensures
        shuts(f, dict_node(f, span), span),
{
    reveal(shuts);
}

proof fn dict_is_read(w: TermV, s: StateV, ts: Seq<TokV>, i: int) -> (r: (StateV, NodeV))
    requires
        w is Dict,
        hosted(w, s, ts, i),
    ensures
        reads(r.1, w, ts, i),
        lands(s, ts, i, r.1, r.0, i + lexis(w).len()),
    decreases w, 1int,
{
    match w {
        TermV::Dict(ps) => {
            let n = ps.len() as int;
            let start = ts[i].span;
            dict_opens(ps, s, ts, i);
            let (b, f) = dict_parts_are_read(
                ps,
                n,
                s,
                pushed(s, dict_frame(start)),
                ts,
                i + 1,
                start,
            );
            let j = i + 1 + parts_lexis(ps, n).len();
            let es = f->Dict_entries;
            let fs = respan(es);
            let node = dict_node(f, ts[j].span);
            assert(entries_agree(es, fs, n));
            agreeing_entries_read(es, fs, ps, n, ts, i + 1);
            if n == 1 && ps[0].key is Bare {
                assert(entry_reads(es[0], ps[0], ts, i + 1 + parts_lexis(ps, 0).len()));
                read_kind(es[0].value, ps[0].value, ts, i + 1 + parts_lexis(ps, 0).len());
            } else if n == 1 {
                assert(entry_reads(es[0], ps[0], ts, i + 1 + parts_lexis(ps, 0).len()));
            }
            dict_shuts(f, ts[j].span);
            let t = closed_lands(s, b, f, node, ts, i, j);
            assert(j + 1 == i + lexis(w).len());
            (t, node)
        },
        _ => (s, arbitrary()),
    }
}

// Calls.

/// Whether one sequence starts with another.
spec fn starts_with<T>(long: Seq<T>, short: Seq<T>) -> bool {
    short.len() <= long.len() && forall|k: int| 0 <= k < short.len() ==> long[k] == #[trigger] short[k]
}

proof fn bare_count_bounds(ps: Seq<PartV>, n: int)
    requires
        0 <= n <= ps.len(),
    ensures
        0 <= bare_count(ps, n) <= n,
    decreases n,
{
    if n > 0 {
        bare_count_bounds(ps, n - 1);
    }
}

proof fn longer_args_read(
    args: Seq<NodeV>,
    named: Seq<NamedArgV>,
    more: Seq<NodeV>,
    more_named: Seq<NamedArgV>,
    ps: Seq<PartV>,
    n: int,
    ts: Seq<TokV>,
    a: int,
)
    requires
        0 <= n <= ps.len(),
        args_read(args, named, ps, n, ts, a),
        starts_with(more, args),
        starts_with(more_named, named),
        bare_count(ps, n) <= args.len(),
        n - bare_count(ps, n) <= named.len(),
    ensures
        args_read(more, more_named, ps, n, ts, a),
    decreases n,
{
    if n > 0 {
        bare_count_bounds(ps, n - 1);
        longer_args_read(args, named, more, more_named, ps, n - 1, ts, a);
        let k = bare_count(ps, n - 1);
        match ps[n - 1].key {
            KeyV::Bare => {
                assert(more[k] == args[k]);
            },
            _ => {
                assert(more_named[n - 1 - k] == named[n - 1 - k]);
            },
        }
    }
}

/// An open call whose arguments are what the first `n` parts are read as.
spec fn call_holds(
    f: FrameV,
    callee: NodeV,
    direct: bool,
    ps: Seq<PartV>,
    n: int,
    ts: Seq<TokV>,
    a: int,
    start: SpanV,
) -> bool {
    match f {
        FrameV::Call { func, implied, args, pending_key, span_start } => {
            let given = positional_args(args);
            let named = named_args(args);
            &&& func == Some(callee)
            &&& implied == direct
            &&& pending_key is None
            &&& span_start == start
            &&& given.len() == bare_count(ps, n)
            &&& named.len() == n - bare_count(ps, n)
            &&& args_read(given, named, ps, n, ts, a)
        },
        _ => false,
    }
}

spec fn call_frame(callee: NodeV, direct: bool, start: SpanV) -> FrameV {
    FrameV::Call {
        func: Some(callee),
        implied: direct,
        args: Seq::empty(),
        pending_key: None,
        span_start: start,
    }
}

proof fn args_are_read(
    ps: Seq<PartV>,
    n: int,
    callee: NodeV,
    direct: bool,
    s: StateV,
    u: StateV,
    ts: Seq<TokV>,
    a: int,
    start: SpanV,
) -> (r: (StateV, FrameV))
    requires
        0 <= n <= ps.len(),
        sane_parts(ps, ps.len() as int),
        only_names(ps),
        written(ts, a, parts_lexis(ps, ps.len() as int)),
        ({
            let e = a + parts_lexis(ps, ps.len() as int).len();
            e < ts.len() && ts[e].tok is CloseBracket
        }),
        s.stack.len() + 1 + parts_depth(ps, ps.len() as int) <= MAX_PARSE_DEPTH,
        same_tree(u, s.stack.push(call_frame(callee, direct, start)), s.items, s),
    ensures
        goes_to(u, ts, a, r.0, a + parts_lexis(ps, n).len()),
        same_tree(r.0, s.stack.push(r.1), s.items, s),
        call_holds(r.1, callee, direct, ps, n, ts, a, start),
    decreases ps, n,
{
    if n == 0 {
        (u, call_frame(callee, direct, start))
    } else {
        let (b, f) = args_are_read(ps, n - 1, callee, direct, s, u, ts, a, start);
        let p = ps[n - 1];
        let at = a + parts_lexis(ps, n - 1).len();
        let len = ps.len() as int;
        part_of(ps, len, n - 1, ts, a);
        behind_part(ps, n, ts, a);
        bare_count_bounds(ps, n - 1);
        assert(b.stack.last() == f);
        let (c, g) = match p.key {
            KeyV::Name(name) => {
                key_is_token(p.key, ts, at);
                let g = with_word_key(f, name, ts[at].span)->0;
                let c = word_key_is_taken(b, ts, at, name, g);
                assert(c.stack =~= s.stack.push(g));
                assert(c.stack.last() == g);
                let d = colon_is_passed(c, ts, at + 1, g);
                assert(d.stack =~= s.stack.push(g));
                (d, g)
            },
            _ => (b, f),
        };
        assert(p.key is Bare || p.key is Name);
        let from = at + key_lexis(p.key).len();
        assert(c.stack.last() == g);
        let (d, m) = term_is_read(p.value, c, ts, from);
        lands_inside(s, g, c, ts, from, m, d, from + lexis(p.value).len());
        let h = place(g, m).0;
        assert(call_holds(h, callee, direct, ps, n, ts, a, start)) by {
            let before = f->Call_args;
            let after = h->Call_args;
            assert(after.drop_last() =~= before);
            longer_args_read(
                positional_args(before),
                named_args(before),
                positional_args(after),
                named_args(after),
                ps,
                n - 1,
                ts,
                a,
            );
        }
        (d, h)
    }
}

/// The words of the special forms.
pub(crate) proof fn keywords()
    ensures
        forall|s: Text|
            #![trigger token_of(KindV::Word(s), false)]
            s == "call"@ || s == "fn"@ || s == "quote"@ || s == "unquote"@ || s
                == "unquote-splice"@ || s == "match"@ || s == "type"@ || s == "class"@ || s
                == "instance"@ || s == "pattern"@ || s == "syntax-class"@ ==> token_of(
                KindV::Word(s),
                false,
            ) == Ok::<TokenV, Text>(TokenV::Identifier(s)),
        "call"@ != "fn"@,
        "quote"@ != "fn"@ && "quote"@ != "call"@ && "quote"@ != "type"@,
        "unquote"@ != "fn"@ && "unquote"@ != "call"@ && "unquote"@ != "type"@ && "unquote"@
            != "quote"@,
        "unquote-splice"@ != "fn"@ && "unquote-splice"@ != "call"@ && "unquote-splice"@ != "type"@
            && "unquote-splice"@ != "quote"@ && "unquote-splice"@ != "unquote"@,
        "match"@ != "fn"@ && "match"@ != "call"@ && "match"@ != "type"@ && "match"@ != "quote"@
            && "match"@ != "unquote"@ && "match"@ != "unquote-splice"@ && "match"@
            != "syntax-class"@,
        token_of(KindV::Word("let"@), false) == Ok::<TokenV, Text>(TokenV::Let),
        token_of(KindV::Word("case"@), false) == Ok::<TokenV, Text>(TokenV::Case),
{
    reveal_strlit("call");
    reveal_strlit("fn");
    reveal_strlit("quote");
    reveal_strlit("unquote");
    reveal_strlit("unquote-splice");
    reveal_strlit("match");
    reveal_strlit("type");
    reveal_strlit("class");
    reveal_strlit("instance");
    reveal_strlit("pattern");
    reveal_strlit("syntax-class");
    reveal_strlit("let");
    reveal_strlit("case");
    assert("call"@.len() == 4 && "case"@.len() == 4 && "type"@.len() == 4);
    assert("fn"@.len() == 2 && "let"@.len() == 3);
    assert("quote"@.len() == 5 && "match"@.len() == 5 && "class"@.len() == 5);
    assert("unquote"@.len() == 7 && "pattern"@.len() == 7);
    assert("instance"@.len() == 8);
    assert("unquote-splice"@.len() == 14);
    assert("syntax-class"@.len() == 12);
    assert("call"@[2] != "case"@[2]);
    assert("type"@[0] != "case"@[0]);
    assert("quote"@[0] != "match"@[0]);
    assert("quote"@[0] != "class"@[0]);
    assert("let"@ != "case"@);
}

/// The parts of a form.
pub(crate) proof fn form_of(head: Text, inner: Seq<KindV>, ts: Seq<TokV>, i: int)
    requires
        written(ts, i, form_lexis(head, inner)),
    ensures
        ts[i].tok is OpenBracket,
        fits(ts, i + 1, KindV::Word(head)),
        written(ts, i + 2, inner),
        i + 2 + inner.len() < ts.len(),
        ts[i + 2 + inner.len()].tok is CloseBracket,
        form_lexis(head, inner).len() == inner.len() + 3,
{
    let first = seq![KindV::Open, KindV::Word(head)];
    written_parts(ts, i, first + inner, seq![KindV::Close]);
    written_parts(ts, i, first, inner);
    assert(fits(ts, i + 0, first[0]));
    assert(fits(ts, i + 1, first[1]));
    let e = i + 2 + inner.len();
    assert(fits(ts, e + 0, seq![KindV::Close][0]));
}

/// Whether a bracket may open a form here.
pub open spec fn open_host(s: StateV) -> bool {
    &&& s.stack.len() < MAX_PARSE_DEPTH
    &&& s.stack.len() > 0 ==> !(s.stack.last() is LetDecl)
}

/// A bracket with a word opens the form of the word.
pub(crate) proof fn keyword_opens(s: StateV, ts: Seq<TokV>, i: int, head: Text, f: FrameV) -> (u: StateV)
    requires
        open_host(s),
        0 <= i,
        i + 2 < ts.len(),
        ts[i].tok is OpenBracket,
        ts[i + 1].tok == TokenV::Identifier(head),
        calm_end(ts, i + 2),
        head != "fn"@,
        keyword_frame(head, ts[i].span) == Some(f),
    ensures
        goes_to(s, ts, i, u, i + 2),
        same_tree(u, s.stack.push(f), s.items, s),
{
    reveal(step);
    reveal(open_step);
    next_is_here(ts, i + 1);
    next_is_here(ts, i + 2);
    let u = pushed(
        StateV { comments: crate::stream::skipped(ts, i + 1, s.comments), ..s },
        f,
    );
    assert(step(s, ts, i) == StepV::Next(u, i + 2));
    step_goes(s, ts, i, u, i + 2);
    u
}

/// A bracket with a name opens a call.
proof fn call_opens(s: StateV, ts: Seq<TokV>, i: int, head: Text) -> (u: StateV)
    requires
        open_host(s),
        0 <= i,
        i + 2 < ts.len(),
        ts[i].tok is OpenBracket,
        ts[i + 1].tok == TokenV::Identifier(head),
        calm_end(ts, i + 2),
        head_name(head),
    ensures
        goes_to(s, ts, i, u, i + 2),
        same_tree(
            u,
            s.stack.push(call_frame(var_node(head, false, ts[i + 1].span), true, ts[i].span)),
            s.items,
            s,
        ),
{
    reveal(step);
    reveal(open_step);
    next_is_here(ts, i + 1);
    next_is_here(ts, i + 2);
    let f = call_frame(var_node(head, false, ts[i + 1].span), true, ts[i].span);
    let u = pushed(
        StateV {
            comments: crate::stream::skipped(ts, i + 1, s.comments),
            node: Some(ts[i + 1].span),
            ..s
        },
        f,
    );
    assert(keyword_frame(head, ts[i].span) is None);
    assert(step(s, ts, i) == StepV::Next(u, i + 2));
    step_goes(s, ts, i, u, i + 2);
    u
}

spec fn call_node(f: FrameV, span: SpanV) -> NodeV {
    NodeV {
        expr: ExprV::Call {
            func: Box::new(f->Call_func->0),
            args: positional_args(f->Call_args),
            named_args: named_args(f->Call_args),
            implied: f->Call_implied,
            pipe_span: None,
        },
        span: form_span(f->Call_span_start, span),
    }
}

proof fn call_shuts(f: FrameV, span: SpanV)
    requires
        f is Call,
        f->Call_pending_key is None,
        f->Call_func is Some,
    ensures
        shuts(f, call_node(f, span), span),
{
    reveal(shuts);
}

pub(crate) proof fn call_is_read(w: TermV, s: StateV, ts: Seq<TokV>, i: int) -> (r: (StateV, NodeV))
    requires
        w is Call,
        hosted(w, s, ts, i),
    ensures
        reads(r.1, w, ts, i),
        r.1.expr is Call,
        lands(s, ts, i, r.1, r.0, i + lexis(w).len()),
    decreases w, 1int,
{
    match w {
        TermV::Call { func, args } => {
            let n = args.len() as int;
            let start = ts[i].span;
            let inner = parts_lexis(args, n);
            form_of(func, inner, ts, i);
            word_is_token(func);
            behind_part(args, 0, ts, i + 2);
            let u = call_opens(s, ts, i, func);
            let callee = var_node(func, false, ts[i + 1].span);
            let (b, f) = args_are_read(args, n, callee, true, s, u, ts, i + 2, start);
            let j = i + 2 + inner.len();
            let node = call_node(f, ts[j].span);
            call_shuts(f, ts[j].span);
            let t = closed_lands(s, b, f, node, ts, i, j);
            (t, node)
        },
        _ => (s, arbitrary()),
    }
}

proof fn apply_is_read(w: TermV, s: StateV, ts: Seq<TokV>, i: int) -> (r: (StateV, NodeV))
    requires
        w is Apply,
        hosted(w, s, ts, i),
    ensures
        reads(r.1, w, ts, i),
        lands(s, ts, i, r.1, r.0, i + lexis(w).len()),
    decreases w, 1int,
{
    match w {
        TermV::Apply { func, args } => {
            let n = args.len() as int;
            let start = ts[i].span;
            let rest = parts_lexis(args, n);
            let inner = lexis(*func) + rest;
            form_of("call"@, inner, ts, i);
            written_parts(ts, i + 2, lexis(*func), rest);
            keywords();
            first_is_calm(*func, ts, i + 2);
            let a = i + 2 + lexis(*func).len();
            behind_part(args, 0, ts, a);
            let f = keyword_frame("call"@, start)->0;
            let u = keyword_opens(s, ts, i, "call"@, f);
            assert(u.stack.last() == f);
            let (b, callee) = term_is_read(*func, u, ts, i + 2);
            lands_inside(s, f, u, ts, i + 2, callee, b, a);
            assert(place(f, callee).0 == call_frame(callee, false, start));
            let (c, g) = args_are_read(args, n, callee, false, s, b, ts, a, start);
            let j = a + rest.len();
            let node = call_node(g, ts[j].span);
            call_shuts(g, ts[j].span);
            let t = closed_lands(s, c, g, node, ts, i, j);
            (t, node)
        },
        _ => (s, arbitrary()),
    }
}

// Quotations.

/// The node of a quotation.
spec fn quote_node(f: FrameV, span: SpanV) -> NodeV {
    match f {
        FrameV::Quote { expr: Some(m), span_start } => NodeV {
            expr: ExprV::Quote(Box::new(m)),
            span: form_span(span_start, span),
        },
        FrameV::Unquote { expr: Some(m), span_start } => NodeV {
            expr: ExprV::Unquote(Box::new(m)),
            span: form_span(span_start, span),
        },
        FrameV::UnquoteSplice { expr: Some(m), span_start } => NodeV {
            expr: ExprV::UnquoteSplice(Box::new(m)),
            span: form_span(span_start, span),
        },
        _ => arbitrary(),
    }
}

proof fn quote_shuts(f: FrameV, span: SpanV)
    requires
        match f {
            FrameV::Quote { expr, .. } => expr is Some,
            FrameV::Unquote { expr, .. } => expr is Some,
            FrameV::UnquoteSplice { expr, .. } => expr is Some,
            _ => false,
        },
    ensures
        shuts(f, quote_node(f, span), span),
{
    reveal(shuts);
}

proof fn quote_is_read(w: TermV, s: StateV, ts: Seq<TokV>, i: int) -> (r: (StateV, NodeV))
    requires
        w is Quote || w is Unquote || w is UnquoteSplice,
        hosted(w, s, ts, i),
    ensures
        reads(r.1, w, ts, i),
        lands(s, ts, i, r.1, r.0, i + lexis(w).len()),
    decreases w, 1int,
{
    keywords();
    let start = ts[i].span;
    let (head, inner) = match w {
        TermV::Quote(inner) => ("quote"@, *inner),
        TermV::Unquote(inner) => ("unquote"@, *inner),
        TermV::UnquoteSplice(inner) => ("unquote-splice"@, *inner),
        _ => ("quote"@, arbitrary()),
    };
    assert(lexis(w) == form_lexis(head, lexis(inner)));
    form_of(head, lexis(inner), ts, i);
    first_is_calm(inner, ts, i + 2);
    let f = keyword_frame(head, start)->0;
    let u = keyword_opens(s, ts, i, head, f);
    assert(u.stack.last() == f);
    let j = i + 2 + lexis(inner).len();
    let (b, m) = term_is_read(inner, u, ts, i + 2);
    lands_inside(s, f, u, ts, i + 2, m, b, j);
    let g = place(f, m).0;
    quote_shuts(g, ts[j].span);
    let node = quote_node(g, ts[j].span);
    let t = closed_lands(s, b, g, node, ts, i, j);
    (t, node)
}

// Fields.

/// A field is taken of what stands before the dot.
proof fn dotted(
    s: StateV,
    n: NodeV,
    t: StateV,
    ts: Seq<TokV>,
    j: int,
    field: DotKeyV,
) -> (r: (StateV, NodeV))
    requires
        steady(s),
        !(n.expr is Decl),
        same_tree(t, placed(s.stack, s.items, n).stack, placed(s.stack, s.items, n).items, s),
        0 <= j,
        j + 1 < ts.len(),
        ts[j].tok is Dot,
        match field {
            DotKeyV::Ident(name) => ts[j + 1].tok == TokenV::Identifier(name),
            DotKeyV::Int(k) => ts[j + 1].tok == TokenV::Int(k),
        },
    ensures
        r.1.expr == (ExprV::Field { expr: Some(Box::new(n)), field }),
        r.1.span.start_line == n.span.start_line,
        r.1.span.start_col == n.span.start_col,
        r.1.span.end_line == ts[j + 1].span.end_line,
        r.1.span.end_col == ts[j + 1].span.end_col,
        goes_to(t, ts, j, r.0, j + 2),
        same_tree(
            r.0,
            placed(s.stack, s.items, r.1).stack,
            placed(s.stack, s.items, r.1).items,
            s,
        ),
{
    reveal(step);
    reveal(dot_step);
    next_is_here(ts, j + 1);
    let span = ts[j].span;
    let stack = taken_again(s, n, t, span);
    let after = StateV { stack, items: s.items, ..t };
    assert(s.stack.len() == 0 ==> t.stack =~= stack);
    assert(dot_target(t, span) == Ok::<(StateV, Option<NodeV>), DiagV>((after, Some(n))));
    let node = field_node(Some(n), field, span, ts[j + 1].span);
    let b = StateV { comments: crate::stream::skipped(ts, j + 1, after.comments), ..after };
    assert(placed(stack, s.items, node) == placed(s.stack, s.items, node));
    let p = placed(s.stack, s.items, node);
    if s.stack.len() > 0 {
        steady_takes(s.stack.last(), node);
    }
    quiet_drains(s, node);
    let chained = is_immediate_at(ts, j + 2);
    let d = drained(p.stack, p.items, chained);
    let u = StateV {
        node: drained_node(p.stack, p.items, chained, Some(node.span)),
        ..with_placed(b, d)
    };
    assert(step(t, ts, j) == field_put(b, node, ts, j + 1));
    assert(step(t, ts, j) == StepV::Next(u, j + 2));
    step_goes(t, ts, j, u, j + 2);
    (u, node)
}

proof fn steady_is_quiet(s: StateV, n: NodeV)
    requires
        steady(s),
    ensures
        quiet(s),
        placed(s.stack, s.items, n).error is None,
{
    if s.stack.len() > 0 {
        steady_takes(s.stack.last(), n);
    }
}

/// A node that landed in a form that takes any term is there.
pub(crate) proof fn landed(s: StateV, ts: Seq<TokV>, i: int, n: NodeV, t: StateV, j: int)
    requires
        steady(s),
        lands(s, ts, i, n, t, j),
    ensures
        goes_to(s, ts, i, t, j),
        same_tree(t, placed(s.stack, s.items, n).stack, placed(s.stack, s.items, n).items, s),
{
    reveal(lands);
    steady_is_quiet(s, n);
    quiet_drains(s, n);
}

/// What is there has landed.
proof fn there_is_landed(s: StateV, ts: Seq<TokV>, i: int, n: NodeV, t: StateV, j: int)
    requires
        steady(s),
        goes_to(s, ts, i, t, j),
        same_tree(t, placed(s.stack, s.items, n).stack, placed(s.stack, s.items, n).items, s),
    ensures
        lands(s, ts, i, n, t, j),
{
    reveal(lands);
    steady_is_quiet(s, n);
    quiet_drains(s, n);
}

/// What landed on the right of a pipe is the pipe.
proof fn pipe_landed(
    s: StateV,
    stack: Seq<FrameV>,
    l: NodeV,
    u: StateV,
    ts: Seq<TokV>,
    i: int,
    m: NodeV,
    v: StateV,
    bar: int,
    j: int,
)
    requires
        steady(s),
        stack.len() > 0 ==> steady_frame(stack.last()),
        forall|x: NodeV| #[trigger] placed(stack, s.items, x) == placed(s.stack, s.items, x),
        same_tree(u, stack.push(FrameV::Pipe { lhs: l, pipe_span: ts[bar].span }), s.items, s),
        goes_to(s, ts, i, u, bar + 1),
        lands(u, ts, bar + 1, m, v, j),
    ensures
        lands(s, ts, i, pipe_node(l, ts[bar].span, m), v, j),
{
    reveal(lands);
    let node = pipe_node(l, ts[bar].span, m);
    assert(u.stack.last() == (FrameV::Pipe { lhs: l, pipe_span: ts[bar].span }));
    assert(u.stack.drop_last() =~= stack);
    assert(placed(u.stack, u.items, m) == placed(stack, s.items, node));
    assert(placed(stack, s.items, node) == placed(s.stack, s.items, node));
    steady_is_quiet(s, node);
    quiet_drains(s, node);
}

proof fn field_is_read(w: TermV, s: StateV, ts: Seq<TokV>, i: int) -> (r: (StateV, NodeV))
    requires
        w is Field || w is Index,
        hosted(w, s, ts, i),
    ensures
        reads(r.1, w, ts, i),
        lands(s, ts, i, r.1, r.0, i + lexis(w).len()),
    decreases w, 1int,
{
    let (target, field, last) = match w {
        TermV::Field { target, name } => (*target, DotKeyV::Ident(name), KindV::Word(name)),
        TermV::Index { target, place } => (*target, DotKeyV::Int(place), numeral(place as int)),
        _ => arbitrary(),
    };
    let tail = seq![KindV::Dot, last];
    assert(lexis(w) == lexis(target) + tail);
    written_parts(ts, i, lexis(target), tail);
    let j = i + lexis(target).len();
    assert(fits(ts, j + 0, tail[0]));
    assert(fits(ts, j + 1, tail[1]));
    match w {
        TermV::Field { name, .. } => {
            word_is_token(name);
        },
        TermV::Index { place, .. } => {
            numeral_is_token(place as int);
        },
        _ => {},
    }
    let (t, n) = term_is_read(target, s, ts, i);
    landed(s, ts, i, n, t, j);
    read_kind(n, target, ts, i);
    let (u, node) = dotted(s, n, t, ts, j, field);
    there_is_landed(s, ts, i, node, u, j + 2);
    (u, node)
}

// Pipes.

proof fn pipe_is_read(w: TermV, s: StateV, ts: Seq<TokV>, i: int) -> (r: (StateV, NodeV))
    requires
        w is Pipe,
        hosted(w, s, ts, i),
    ensures
        reads(r.1, w, ts, i),
        lands(s, ts, i, r.1, r.0, i + lexis(w).len()),
    decreases w, 1int,
{
    match w {
        TermV::Pipe { lhs, rhs } => {
            let bar = seq![KindV::Pipe];
            written_parts(ts, i, lexis(*lhs) + bar, lexis(*rhs));
            written_parts(ts, i, lexis(*lhs), bar);
            let j = i + lexis(*lhs).len();
            let e = j + 1 + lexis(*rhs).len();
            assert(fits(ts, j + 0, bar[0]));
            let (t, l) = term_is_read(*lhs, s, ts, i);
            landed(s, ts, i, l, t, j);
            read_kind(l, *lhs, ts, i);
            let (u, stack) = bar_is_passed(s, l, t, ts, j);
            assert(u.stack.last() == (FrameV::Pipe { lhs: l, pipe_span: ts[j].span }));
            assert(u.stack.drop_last() =~= stack);
            assert(quiet(u)) by {
                if stack.len() > 0 {
                    assert(u.stack[u.stack.len() - 2] == stack.last());
                }
            }
            let (v, m) = term_is_read(*rhs, u, ts, j + 1);
            pipe_landed(s, stack, l, u, ts, i, m, v, j, e);
            (v, pipe_node(l, ts[j].span, m))
        },
        _ => (s, arbitrary()),
    }
}

proof fn bar_is_passed(s: StateV, l: NodeV, t: StateV, ts: Seq<TokV>, j: int) -> (r: (
    StateV,
    Seq<FrameV>,
))
    requires
        steady(s),
        !(l.expr is Decl),
        same_tree(t, placed(s.stack, s.items, l).stack, placed(s.stack, s.items, l).items, s),
        0 <= j < ts.len(),
        ts[j].tok is Pipe,
    ensures
        goes_to(t, ts, j, r.0, j + 1),
        r.1.len() == s.stack.len(),
        r.1.len() > 0 ==> steady_frame(r.1.last()),
        forall|m: NodeV| #[trigger] placed(r.1, s.items, m) == placed(s.stack, s.items, m),
        same_tree(
            r.0,
            r.1.push(FrameV::Pipe { lhs: l, pipe_span: ts[j].span }),
            s.items,
            s,
        ),
{
    reveal(step);
    reveal(pipe_step);
    let span = ts[j].span;
    let stack = taken_again(s, l, t, span);
    let u = StateV {
        stack: stack.push(FrameV::Pipe { lhs: l, pipe_span: span }),
        items: s.items,
        ..t
    };
    assert(s.stack.len() == 0 ==> t.stack =~= stack);
    assert(step(t, ts, j) == StepV::Next(u, j + 1));
    step_goes(t, ts, j, u, j + 1);
    (u, stack)
}

// Placeholders.

proof fn rest_is_read(name: Text, s: StateV, ts: Seq<TokV>, i: int) -> (r: (StateV, NodeV))
    requires
        plain_name(name),
        quiet(s),
        written(ts, i, seq![KindV::Ellipsis, KindV::Word(name)]),
        !is_immediate_at(ts, i + 2),
    ensures
        r.1.expr == ExprV::Placeholder(Some(name), None),
        over(r.1.span, ts, i, i + 2),
        lands(s, ts, i, r.1, r.0, i + 2),
{
    reveal(step);
    reveal(ellipsis_step);
    reveal(lands);
    let ks = seq![KindV::Ellipsis, KindV::Word(name)];
    assert(fits(ts, i + 0, ks[0]));
    assert(fits(ts, i + 1, ks[1]));
    word_is_token(name);
    next_is_here(ts, i + 1);
    let span = placeholder_span(ts[i].span, name, ts[i + 1].span);
    let n = NodeV { expr: ExprV::Placeholder(Some(name), None), span };
    let after = StateV { comments: crate::stream::skipped(ts, i + 1, s.comments), ..s };
    let p = placed(s.stack, s.items, n);
    quiet_drains(s, n);
    let t = StateV { last: Some(span), ..with_node(after, p, n) };
    if p.error is None {
        assert(step(s, ts, i) == StepV::Next(t, i + 2));
        step_goes(s, ts, i, t, i + 2);
    }
    (t, n)
}

// Notes.

/// What is read of a note.
spec fn noted_with(n: NodeV, value: NodeV, at: SpanV) -> NodeV {
    annotated_node(n, collected(value, at))
}

/// An `@` behind a term takes the term, and waits for the note.
proof fn at_is_passed(s: StateV, n: NodeV, t: StateV, ts: Seq<TokV>, j: int) -> (r: (
    StateV,
    Seq<FrameV>,
))
    requires
        steady(s),
        !(n.expr is Decl),
        same_tree(t, placed(s.stack, s.items, n).stack, placed(s.stack, s.items, n).items, s),
        0 <= j < ts.len(),
        ts[j].tok is ImmediateAt,
    ensures
        goes_to(t, ts, j, r.0, j + 1),
        r.1.len() == s.stack.len(),
        r.1.len() > 0 ==> steady_frame(r.1.last()),
        forall|m: NodeV| #[trigger] placed(r.1, s.items, m) == placed(s.stack, s.items, m),
        same_tree(
            r.0,
            r.1.push(
                FrameV::AnnotationCollect {
                    target: TargetV::Attached(n),
                    value: None,
                    span_start: ts[j].span,
                },
            ),
            s.items,
            s,
        ),
{
    reveal(step);
    reveal(at_step);
    let span = ts[j].span;
    let stack = taken_again(s, n, t, span);
    let u = StateV {
        stack: stack.push(
            FrameV::AnnotationCollect {
                target: TargetV::Attached(n),
                value: None,
                span_start: span,
            },
        ),
        items: s.items,
        last: Some(span),
        node: Some(n.span),
        ..t
    };
    assert(s.stack.len() == 0 ==> t.stack =~= stack);
    assert(step(t, ts, j) == StepV::Next(u, j + 1));
    step_goes(t, ts, j, u, j + 1);
    (u, stack)
}

/// What landed behind an `@` is the note of what stands before it.
proof fn note_landed(
    base: StateV,
    n: NodeV,
    u: StateV,
    ts: Seq<TokV>,
    j: int,
    value: NodeV,
    v: StateV,
    e: int,
)
    requires
        same_tree(
            u,
            base.stack.push(
                FrameV::AnnotationCollect {
                    target: TargetV::Attached(n),
                    value: None,
                    span_start: ts[j].span,
                },
            ),
            base.items,
            base,
        ),
        lands(u, ts, j + 1, value, v, e),
        quiet(base),
        placed(base.stack, base.items, noted_with(n, value, ts[j].span)).error is None,
    ensures
        goes_to(u, ts, j + 1, v, e),
        ({
            let p = placed(base.stack, base.items, noted_with(n, value, ts[j].span));
            same_tree(v, p.stack, p.items, base)
        }),
{
    reveal(lands);
    reveal_with_fuel(drained, 3);
    let f = FrameV::AnnotationCollect {
        target: TargetV::Attached(n),
        value: Some(value),
        span_start: ts[j].span,
    };
    assert(u.stack.drop_last() =~= base.stack);
    let p = placed(u.stack, u.items, value);
    assert(p.error is None);
    assert(p.stack =~= base.stack.push(f));
    assert(p.stack.last() == f);
    assert(p.stack.drop_last() =~= base.stack);
    let node = noted_with(n, value, ts[j].span);
    let q = placed(base.stack, base.items, node);
    quiet_drains(base, node);
    assert(drained(p.stack, p.items, false) == drained(q.stack, q.items, false));
}

proof fn note_is_note(note: TermV, value: NodeV, at: SpanV, ts: Seq<TokV>, j: int)
    requires
        note is Name || note is Dict,
        reads(value, note, ts, j + 1),
        at == ts[j].span,
    ensures
        note_reads(collected(value, at), note, ts, j),
{
    match note {
        TermV::Name(s) => {},
        TermV::Dict(ps) => {
            assert(value.expr is Dict);
        },
        _ => {},
    }
}

proof fn noted_reads(
    target: TermV,
    note: TermV,
    n: NodeV,
    value: NodeV,
    ts: Seq<TokV>,
    i: int,
)
    requires
        reads(n, target, ts, i),
        notable(target),
        note is Name || note is Dict,
        ({
            let j = i + lexis(target).len();
            &&& reads(value, note, ts, j + 1)
            &&& note_reads(collected(value, ts[j].span), note, ts, j)
        }),
    ensures
        reads(
            noted_with(n, value, ts[i + lexis(target).len()].span),
            TermV::Noted { target: Box::new(target), note: Box::new(note) },
            ts,
            i,
        ),
{
    let j = i + lexis(target).len();
    let w = TermV::Noted { target: Box::new(target), note: Box::new(note) };
    let ann = collected(value, ts[j].span);
    let node = noted_with(n, value, ts[j].span);
    assert(lexis(w).len() == lexis(target).len() + 1 + lexis(note).len());
    assert(over(value.span, ts, j + 1, j + 1 + lexis(note).len()));
    assert(over(ann.span, ts, j, j + 1 + lexis(note).len()));
    assert(n.span.start_line == ts[first_token(target, i)].span.start_line);
    assert(over(node.span, ts, first_token(w, i), behind_token(w, i)));
    match target {
        TermV::Name(_) | TermV::Ref(_) => {
            assert(j == i + 1);
        },
        TermV::Let(bs) => {
            assert(let_reads(n, bs, ts, i));
            assert(node.expr is TypeAssert);
        },
        _ => {
            assert(node.expr is TypeAssert);
        },
    }
}

proof fn noted_is_read(w: TermV, s: StateV, ts: Seq<TokV>, i: int) -> (r: (StateV, NodeV))
    requires
        w is Noted,
        hosted(w, s, ts, i),
    ensures
        reads(r.1, w, ts, i),
        lands(s, ts, i, r.1, r.0, i + lexis(w).len()),
    decreases w, 1int,
{
    match w {
        TermV::Noted { target, note } => {
            let sign = seq![KindV::At];
            let j = i + lexis(*target).len();
            let e = j + 1 + lexis(*note).len();
            written_parts(ts, i, lexis(*target) + sign, lexis(*note));
            written_parts(ts, i, lexis(*target), sign);
            assert(fits(ts, j + 0, sign[0]));
            last_is_no_bracket(*target, ts, i);
            let (t, n) = term_is_read(*target, s, ts, i);
            landed(s, ts, i, n, t, j);
            read_kind(n, *target, ts, i);
            let (u, stack) = at_is_passed(s, n, t, ts, j);
            assert(sane(*note));
            let (v, value) = term_is_read(*note, u, ts, j + 1);
            let base = StateV { stack, items: s.items, ..s };
            let node = noted_with(n, value, ts[j].span);
            if stack.len() > 0 {
                steady_takes(stack.last(), node);
            }
            steady_is_quiet(base, node);
            note_landed(base, n, u, ts, j, value, v, e);
            assert(placed(stack, s.items, node) == placed(s.stack, s.items, node));
            there_is_landed(s, ts, i, node, v, e);
            note_is_note(*note, value, ts[j].span, ts, j);
            noted_reads(*target, *note, n, value, ts, i);
            (v, node)
        },
        _ => (s, arbitrary()),
    }
}

/// The last token of a term opens nothing.
proof fn last_is_no_bracket(w: TermV, ts: Seq<TokV>, i: int)
    requires
        sane(w),
        written(ts, i, lexis(w)),
    ensures
        !(ts[i + lexis(w).len() - 1].tok is OpenBracket),
    decreases w,
{
    first_lexeme(w);
    let n = lexis(w).len() as int;
    assert(fits(ts, i + (n - 1), lexis(w)[n - 1]));
    match w {
        TermV::Pipe { lhs, rhs } => {
            written_parts(ts, i, lexis(*lhs) + seq![KindV::Pipe], lexis(*rhs));
            last_is_no_bracket(*rhs, ts, i + lexis(*lhs).len() + 1);
        },
        TermV::Noted { target, note } => {
            written_parts(ts, i, lexis(*target) + seq![KindV::At], lexis(*note));
            assert(sane(*note));
            last_is_no_bracket(*note, ts, i + lexis(*target).len() + 1);
        },
        TermV::Let(bs) => {
            assert(let_lexis(bs).last() is Close);
        },
        TermV::Field { target, name } => {
            word_is_token(name);
            assert(lexis(w).last() == KindV::Word(name));
        },
        TermV::Index { target, place } => {
            numeral_is_token(place as int);
            assert(lexis(w).last() == numeral(place as int));
        },
        TermV::Int(k) => {
            numeral_is_token(k as int);
        },
        TermV::U64(k) => {
            numeral_is_token(k as int);
        },
        TermV::Name(s) => {
            word_is_token(s);
        },
        TermV::Rest(s) => {
            word_is_token(s);
            assert(lexis(w).last() == KindV::Word(s));
        },
        TermV::Float(_) | TermV::Str { .. } | TermV::Ref(_) => {},
        _ => {
            assert(lexis(w).last() is Close);
        },
    }
}

/// A dict with a note before its entries.
spec fn assert_frame(start: SpanV, note: AnnotV) -> FrameV {
    FrameV::Dict {
        entries: Seq::empty(),
        pending_key: None,
        seen_keys: Set::empty(),
        span_start: start,
        floating_annotation: Some(note),
    }
}

/// A bracket with an `@` opens an assertion.
proof fn assert_opens(s: StateV, ts: Seq<TokV>, i: int) -> (u: StateV)
    requires
        open_host(s),
        0 <= i,
        i + 2 < ts.len(),
        ts[i].tok is OpenBracket,
        ts[i + 1].tok is At,
    ensures
        goes_to(s, ts, i, u, i + 2),
        same_tree(
            u,
            s.stack.push(dict_frame(ts[i].span)).push(
                FrameV::AnnotationCollect {
                    target: TargetV::Floating,
                    value: None,
                    span_start: ts[i + 1].span,
                },
            ),
            s.items,
            s,
        ),
{
    reveal(step);
    reveal(open_step);
    reveal(at_step);
    next_is_here(ts, i + 1);
    let b = pushed(s, dict_frame(ts[i].span));
    assert(step(s, ts, i) == StepV::Next(b, i + 1));
    step_goes(s, ts, i, b, i + 1);
    let span = ts[i + 1].span;
    let u = StateV {
        stack: b.stack.push(
            FrameV::AnnotationCollect {
                target: TargetV::Floating,
                value: None,
                span_start: span,
            },
        ),
        last: Some(span),
        node: None,
        ..b
    };
    assert(step(b, ts, i + 1) == StepV::Next(u, i + 2));
    step_goes(b, ts, i + 1, u, i + 2);
    u
}

/// What landed behind an `@` that floats is the note of the dict around it.
proof fn floating_landed(
    s: StateV,
    start: SpanV,
    u: StateV,
    ts: Seq<TokV>,
    j: int,
    value: NodeV,
    v: StateV,
    e: int,
)
    requires
        same_tree(
            u,
            s.stack.push(dict_frame(start)).push(
                FrameV::AnnotationCollect {
                    target: TargetV::Floating,
                    value: None,
                    span_start: ts[j].span,
                },
            ),
            s.items,
            s,
        ),
        lands(u, ts, j + 1, value, v, e),
    ensures
        goes_to(u, ts, j + 1, v, e),
        same_tree(
            v,
            s.stack.push(assert_frame(start, collected(value, ts[j].span))),
            s.items,
            s,
        ),
{
    reveal(lands);
    reveal_with_fuel(drained, 3);
    let base = s.stack.push(dict_frame(start));
    assert(u.stack.drop_last() =~= base);
    let p = placed(u.stack, u.items, value);
    assert(p.stack.drop_last() =~= base);
    assert(base.last() == dict_frame(start));
    assert(base.drop_last() =~= s.stack);
}

proof fn assert_shuts(f: FrameV, span: SpanV)
    requires
        f is Dict,
        f->Dict_pending_key is None,
        f->Dict_floating_annotation is Some,
        f->Dict_entries.len() == 1,
        f->Dict_entries[0].key is None,
    ensures
        shuts(f, assert_node(f->Dict_floating_annotation->0, f->Dict_entries[0].value), span),
{
    reveal(shuts);
}

spec fn assert_node(note: AnnotV, value: NodeV) -> NodeV {
    NodeV {
        expr: ExprV::TypeAssert { annotation: Box::new(note), expr: Box::new(value) },
        span: span_between(note.span, value.span, value.span.file),
    }
}

proof fn assert_is_read(w: TermV, s: StateV, ts: Seq<TokV>, i: int) -> (r: (StateV, NodeV))
    requires
        w is Assert,
        hosted(w, s, ts, i),
    ensures
        reads(r.1, w, ts, i),
        lands(s, ts, i, r.1, r.0, i + lexis(w).len()),
    decreases w, 1int,
{
    match w {
        TermV::Assert { note, value } => {
            let head = seq![KindV::Open, KindV::At];
            let close = seq![KindV::Close];
            let nl = lexis(*note);
            let vl = lexis(*value);
            let start = ts[i].span;
            written_parts(ts, i, head + nl + vl, close);
            written_parts(ts, i, head + nl, vl);
            written_parts(ts, i, head, nl);
            assert(fits(ts, i + 0, head[0]));
            assert(fits(ts, i + 1, head[1]));
            let a = i + 2 + nl.len();
            let j = a + vl.len();
            assert(fits(ts, j + 0, close[0]));
            let u = assert_opens(s, ts, i);
            first_is_calm(*value, ts, a);
            assert(sane(*note));
            let (b, x) = term_is_read(*note, u, ts, i + 2);
            floating_landed(s, start, u, ts, i + 1, x, b, a);
            let ann = collected(x, ts[i + 1].span);
            note_is_note(*note, x, ts[i + 1].span, ts, i + 1);
            let f = assert_frame(start, ann);
            assert(b.stack.last() == f);
            let (c, m) = term_is_read(*value, b, ts, a);
            lands_inside(s, f, b, ts, a, m, c, j);
            let g = place(f, m).0;
            assert_shuts(g, ts[j].span);
            let node = assert_node(ann, m);
            let t = closed_lands(s, c, g, node, ts, i, j);
            assert(note_reads(ann, *note, ts, i + 1));
            assert(reads(m, *value, ts, a));
            (t, node)
        },
        _ => (s, arbitrary()),
    }
}

// Bindings.

/// Whether a form of bindings is in order: a default is complete, or there is none.
spec fn let_ready(f: FrameV) -> bool {
    match f {
        FrameV::LetDecl { bindings, pending_key, pending_rhs, .. } => {
            &&& pending_key is Some <==> pending_rhs is Some
            &&& final_bindings(bindings, pending_key, pending_rhs) is Ok
        },
        _ => false,
    }
}

/// The bindings of a form.
spec fn let_all(f: FrameV) -> Seq<NodeV> {
    final_bindings(f->LetDecl_bindings, f->LetDecl_pending_key, f->LetDecl_pending_rhs)->Ok_0
}

spec fn let_with(bindings: Seq<NodeV>, start: SpanV) -> FrameV {
    FrameV::LetDecl { bindings, pending_key: None, pending_rhs: None, span_start: start }
}

proof fn let_takes(f: FrameV, n: NodeV)
    requires
        let_ready(f),
    ensures
        place(f, n) == (let_with(let_all(f).push(n), f->LetDecl_span_start), None::<ErrV>),
        let_ready(place(f, n).0),
        let_all(place(f, n).0) == let_all(f).push(n),
        place(f, n).0->LetDecl_span_start == f->LetDecl_span_start,
{
}

proof fn bind_first(b: BindV, ts: Seq<TokV>, at: int)
    requires
        sane_bind(b),
        written(ts, at, bind_lexis(b)),
    ensures
        bind_lexis(b).len() > 0,
        at < ts.len(),
        calm_end(ts, at),
        !(ts[at].tok is Let),
{
    assert(bind_lexis(b).len() > 0);
    assert(fits(ts, at + 0, bind_lexis(b)[0]));
    match b {
        BindV::Name(s) => {
            word_is_token(s);
        },
        BindV::Noted(s, _) => {
            word_is_token(s);
        },
        BindV::Default(s, w) => {
            word_is_token(s);
            assert(bind_lexis(b)[0] == KindV::Word(s));
        },
        BindV::Rest(_) => {},
        BindV::Group(bs) => {
            assert(bind_lexis(b)[0] is Open);
        },
    }
}

proof fn bind_of(bs: Seq<BindV>, n: int, k: int, ts: Seq<TokV>, a: int)
    requires
        0 <= k < n <= bs.len(),
        sane_binds(bs, n),
        written(ts, a, binds_lexis(bs, n)),
    ensures
        sane_bind(bs[k]),
        bs[k] matches BindV::Group(inner) ==> 1 + binds_depth(inner, inner.len() as int)
            <= binds_depth(bs, n),
        written(ts, a + binds_lexis(bs, k).len(), bind_lexis(bs[k])),
        binds_lexis(bs, k).len() + bind_lexis(bs[k]).len() == binds_lexis(bs, k + 1).len(),
    decreases n,
{
    written_parts(ts, a, binds_lexis(bs, n - 1), bind_lexis(bs[n - 1]));
    if k < n - 1 {
        bind_of(bs, n - 1, k, ts, a);
    }
}

proof fn behind_bind(bs: Seq<BindV>, n: int, ts: Seq<TokV>, a: int)
    requires
        0 <= n <= bs.len(),
        sane_binds(bs, bs.len() as int),
        written(ts, a, binds_lexis(bs, bs.len() as int)),
        ({
            let e = a + binds_lexis(bs, bs.len() as int).len();
            e < ts.len() && ts[e].tok is CloseBracket
        }),
    ensures
        calm_end(ts, a + binds_lexis(bs, n).len()),
        !(ts[a + binds_lexis(bs, n).len()].tok is Let),
        a + binds_lexis(bs, n).len() < ts.len(),
{
    if n < bs.len() {
        bind_of(bs, bs.len() as int, n, ts, a);
        bind_first(bs[n], ts, a + binds_lexis(bs, n).len());
    }
}

pub(crate) proof fn longer_binds_read(
    ns: Seq<NodeV>,
    ms: Seq<NodeV>,
    bs: Seq<BindV>,
    n: int,
    ts: Seq<TokV>,
    a: int,
)
    requires
        0 <= n <= bs.len(),
        n <= ns.len(),
        n <= ms.len(),
        forall|k: int| 0 <= k < n ==> #[trigger] ms[k] == ns[k],
        binds_read(ns, bs, n, ts, a),
    ensures
        binds_read(ms, bs, n, ts, a),
    decreases n,
{
    if n > 0 {
        longer_binds_read(ns, ms, bs, n - 1, ts, a);
        assert(ms[n - 1] == ns[n - 1]);
    }
}

/// A name in `[let ...]` is a binding, whatever follows.
proof fn bound_name_settles(u: StateV, ts: Seq<TokV>, i: int, name: Text) -> (t: StateV)
    requires
        0 <= i < ts.len(),
        ts[i].tok == TokenV::Identifier(name),
        u.stack.len() > 0,
        u.stack.last() is LetDecl,
    ensures
        lands(u, ts, i, var_node(name, false, ts[i].span), t, i + 1),
{
    reveal(step);
    reveal(word_step);
    let n = var_node(name, false, ts[i].span);
    assert(step(u, ts, i) == settled(u, n, ts[i].span, ts, i));
    settled_lands(u, n, ts[i].span, ts, i)
}

proof fn default_is_ready(f: FrameV, key: NodeV, rhs: NodeV, name: Text)
    requires
        f is LetDecl,
        f->LetDecl_pending_key == Some(key),
        f->LetDecl_pending_rhs is None,
        key.expr == (ExprV::VarRef { name, escaped: false, annotation: None }),
        !(rhs.expr is Field),
        rhs.expr matches ExprV::VarRef { escaped, .. } ==> escaped,
    ensures
        place(f, rhs).1 is None,
        let_ready(place(f, rhs).0),
        place(f, rhs).0->LetDecl_span_start == f->LetDecl_span_start,
        let_default(key, rhs) is Ok,
        let_all(place(f, rhs).0) == f->LetDecl_bindings.push(let_default(key, rhs)->Ok_0),
{
    assert(dot_path(rhs) is None);
}

proof fn default_is_read(
    name: Text,
    w: TermV,
    s: StateV,
    f: FrameV,
    u: StateV,
    ts: Seq<TokV>,
    at: int,
) -> (r: (StateV, FrameV, NodeV))
    requires
        sane_bind(BindV::Default(name, w)),
        written(ts, at, bind_lexis(BindV::Default(name, w))),
        calm_end(ts, at + 3),
        same_tree(u, s.stack.push(f), s.items, s),
        let_ready(f),
    ensures
        goes_to(u, ts, at, r.0, at + 3),
        bind_lexis(BindV::Default(name, w)).len() == 3,
        same_tree(r.0, s.stack.push(r.1), s.items, s),
        let_ready(r.1),
        r.1->LetDecl_span_start == f->LetDecl_span_start,
        let_all(r.1) == let_all(f).push(r.2),
        bind_reads(r.2, BindV::Default(name, w), ts, at),
{
    let b = BindV::Default(name, w);
    let head = seq![KindV::Word(name), KindV::Colon];
    quotes_are_quotes();
    assert(bind_lexis(b) == head + lexis(w));
    written_parts(ts, at, head, lexis(w));
    assert(fits(ts, at + 0, head[0]));
    assert(fits(ts, at + 1, head[1]));
    word_is_token(name);
    assert(u.stack.last() == f);
    let key = var_node(name, false, ts[at].span);
    let c = bound_name_settles(u, ts, at, name);
    let_takes(f, key);
    lands_inside(s, f, u, ts, at, key, c, at + 1);
    let g = place(f, key).0;
    assert(c.stack.last() == g);
    assert(let_all(f).push(key).drop_last() =~= let_all(f));
    let h = FrameV::LetDecl {
        bindings: let_all(f),
        pending_key: Some(key),
        pending_rhs: None,
        span_start: f->LetDecl_span_start,
    };
    let d = colon_is_passed(c, ts, at + 1, h);
    assert(d.stack =~= s.stack.push(h));
    assert(d.stack.last() == h);
    assert(lexis(w).len() == 1);
    let (e, rhs) = atom_is_read(w, d, ts, at + 2);
    default_is_ready(h, key, rhs, name);
    lands_inside(s, h, d, ts, at + 2, rhs, e, at + 3);
    (e, place(h, rhs).0, let_default(key, rhs)->Ok_0)
}

proof fn noted_bind_is_read(
    name: Text,
    note: Text,
    s: StateV,
    f: FrameV,
    u: StateV,
    ts: Seq<TokV>,
    at: int,
) -> (r: (StateV, FrameV, NodeV))
    requires
        plain_name(name),
        plain_name(note),
        written(ts, at, bind_lexis(BindV::Noted(name, note))),
        calm_end(ts, at + 3),
        same_tree(u, s.stack.push(f), s.items, s),
        let_ready(f),
    ensures
        goes_to(u, ts, at, r.0, at + 3),
        same_tree(r.0, s.stack.push(r.1), s.items, s),
        let_ready(r.1),
        r.1->LetDecl_span_start == f->LetDecl_span_start,
        let_all(r.1) == let_all(f).push(r.2),
        bind_reads(r.2, BindV::Noted(name, note), ts, at),
{
    let b = BindV::Noted(name, note);
    let ks = bind_lexis(b);
    assert(fits(ts, at + 0, ks[0]));
    assert(fits(ts, at + 1, ks[1]));
    assert(fits(ts, at + 2, ks[2]));
    word_is_token(name);
    word_is_token(note);
    let start = f->LetDecl_span_start;
    assert(u.stack.last() == f);
    let n = var_node(name, false, ts[at].span);
    let c = bound_name_settles(u, ts, at, name);
    let_takes(f, n);
    lands_inside(s, f, u, ts, at, n, c, at + 1);
    let h = let_with(let_all(f), start);
    let d = bound_at_is_passed(s, let_all(f), start, n, c, ts, at + 1);
    let base = StateV { stack: s.stack.push(h), ..s };
    assert(written(ts, at + 2, lexis(TermV::Name(note)))) by {
        assert(lexis(TermV::Name(note)) =~= seq![ks[2]]);
    }
    assert(d.stack.last() is AnnotationCollect);
    let (e, value) = atom_is_read(TermV::Name(note), d, ts, at + 2);
    let node = noted_with(n, value, ts[at + 1].span);
    assert(base.stack.last() == h);
    assert(base.stack.drop_last() =~= s.stack);
    let_takes(h, node);
    assert(let_all(h) =~= let_all(f));
    note_landed(base, n, d, ts, at + 1, value, e, at + 3);
    let p = placed(base.stack, base.items, node);
    assert(p.stack =~= s.stack.push(place(h, node).0));
    (e, place(h, node).0, node)
}

proof fn bound_at_is_passed(
    s: StateV,
    all: Seq<NodeV>,
    start: SpanV,
    n: NodeV,
    t: StateV,
    ts: Seq<TokV>,
    j: int,
) -> (u: StateV)
    requires
        same_tree(t, s.stack.push(let_with(all.push(n), start)), s.items, s),
        0 <= j < ts.len(),
        ts[j].tok is ImmediateAt,
    ensures
        goes_to(t, ts, j, u, j + 1),
        same_tree(
            u,
            s.stack.push(let_with(all, start)).push(
                FrameV::AnnotationCollect {
                    target: TargetV::Attached(n),
                    value: None,
                    span_start: ts[j].span,
                },
            ),
            s.items,
            s,
        ),
{
    reveal(step);
    reveal(at_step);
    let span = ts[j].span;
    let f = let_with(all.push(n), start);
    assert(t.stack.last() == f);
    assert(t.stack.drop_last() =~= s.stack);
    assert(all.push(n).drop_last() =~= all);
    assert(taken(f, span) == (let_with(all, start), Ok::<Option<NodeV>, ErrV>(Some(n))));
    let u = StateV {
        stack: s.stack.push(let_with(all, start)).push(
            FrameV::AnnotationCollect {
                target: TargetV::Attached(n),
                value: None,
                span_start: span,
            },
        ),
        last: Some(span),
        node: Some(n.span),
        ..t
    };
    assert(step(t, ts, j) == StepV::Next(u, j + 1));
    step_goes(t, ts, j, u, j + 1);
    u
}

proof fn let_shuts(f: FrameV, span: SpanV)
    requires
        let_ready(f),
    ensures
        shuts(f, let_node(f, span), span),
{
    reveal(shuts);
}

spec fn let_node(f: FrameV, span: SpanV) -> NodeV {
    NodeV {
        expr: ExprV::LetDecl { bindings: let_all(f) },
        span: form_span(f->LetDecl_span_start, span),
    }
}

/// A bracket among bindings opens a group.
proof fn group_opens(s: StateV, ts: Seq<TokV>, i: int) -> (u: StateV)
    requires
        s.stack.len() < MAX_PARSE_DEPTH,
        s.stack.len() > 0,
        s.stack.last() is LetDecl,
        0 <= i,
        i + 1 < ts.len(),
        ts[i].tok is OpenBracket,
        significant(ts, i + 1),
        !(ts[i + 1].tok is Let),
    ensures
        goes_to(s, ts, i, u, i + 1),
        same_tree(u, s.stack.push(let_frame(ts[i].span)), s.items, s),
{
    reveal(step);
    reveal(open_step);
    next_is_here(ts, i + 1);
    let u = pushed(s, let_frame(ts[i].span));
    assert(step(s, ts, i) == StepV::Next(u, i + 1));
    step_goes(s, ts, i, u, i + 1);
    u
}

/// A bracket with one of the two words that name nothing opens its form.
proof fn word_opens(s: StateV, ts: Seq<TokV>, i: int, f: FrameV) -> (u: StateV)
    requires
        s.stack.len() < MAX_PARSE_DEPTH,
        s.stack.len() > 0 && s.stack.last() is LetDecl ==> ts[i + 1].tok is Let,
        0 <= i,
        i + 2 < ts.len(),
        ts[i].tok is OpenBracket,
        ts[i + 1].tok is Let && f == let_frame(ts[i].span) || ts[i + 1].tok is Case && f
            == case_frame(ts[i].span),
        calm_end(ts, i + 2),
    ensures
        goes_to(s, ts, i, u, i + 2),
        same_tree(u, s.stack.push(f), s.items, s),
{
    reveal(step);
    reveal(open_step);
    next_is_here(ts, i + 1);
    next_is_here(ts, i + 2);
    let u = pushed(
        StateV { comments: crate::stream::skipped(ts, i + 1, s.comments), ..s },
        f,
    );
    assert(step(s, ts, i) == StepV::Next(u, i + 2));
    step_goes(s, ts, i, u, i + 2);
    u
}

proof fn bind_is_read(
    b: BindV,
    s: StateV,
    f: FrameV,
    u: StateV,
    ts: Seq<TokV>,
    at: int,
) -> (r: (StateV, FrameV, NodeV))
    requires
        sane_bind(b),
        written(ts, at, bind_lexis(b)),
        calm_end(ts, at + bind_lexis(b).len()),
        same_tree(u, s.stack.push(f), s.items, s),
        let_ready(f),
        b matches BindV::Group(inner) ==> s.stack.len() + 2 + binds_depth(
            inner,
            inner.len() as int,
        ) <= MAX_PARSE_DEPTH,
    ensures
        goes_to(u, ts, at, r.0, at + bind_lexis(b).len()),
        same_tree(r.0, s.stack.push(r.1), s.items, s),
        let_ready(r.1),
        r.1->LetDecl_span_start == f->LetDecl_span_start,
        let_all(r.1) == let_all(f).push(r.2),
        bind_reads(r.2, b, ts, at),
    decreases b, 1int,
{
    assert(u.stack.last() == f);
    match b {
        BindV::Name(name) => {
            assert(fits(ts, at + 0, bind_lexis(b)[0]));
            word_is_token(name);
            let n = var_node(name, false, ts[at].span);
            let c = bound_name_settles(u, ts, at, name);
            let_takes(f, n);
            lands_inside(s, f, u, ts, at, n, c, at + 1);
            (c, place(f, n).0, n)
        },
        BindV::Noted(name, note) => noted_bind_is_read(name, note, s, f, u, ts, at),
        BindV::Default(name, w) => default_is_read(name, w, s, f, u, ts, at),
        BindV::Rest(name) => {
            let (c, n) = rest_is_read(name, u, ts, at);
            let_takes(f, n);
            lands_inside(s, f, u, ts, at, n, c, at + 2);
            (c, place(f, n).0, n)
        },
        BindV::Group(bs) => {
            let inner = binds_lexis(bs, bs.len() as int);
            let open = seq![KindV::Open];
            let close = seq![KindV::Close];
            written_parts(ts, at, open + inner, close);
            written_parts(ts, at, open, inner);
            assert(fits(ts, at + 0, open[0]));
            let j = at + 1 + inner.len();
            assert(fits(ts, j + 0, close[0]));
            let start = ts[at].span;
            behind_bind(bs, 0, ts, at + 1);
            let v = group_opens(u, ts, at);
            let (c, g) = binds_are_read(bs, bs.len() as int, u, v, ts, at + 1, start);
            let_shuts(g, ts[j].span);
            let n = let_node(g, ts[j].span);
            let d = closed_lands(u, c, g, n, ts, at, j);
            let_takes(f, n);
            lands_inside(s, f, u, ts, at, n, d, j + 1);
            (d, place(f, n).0, n)
        },
    }
}

proof fn binds_are_read(
    bs: Seq<BindV>,
    n: int,
    s: StateV,
    u: StateV,
    ts: Seq<TokV>,
    a: int,
    start: SpanV,
) -> (r: (StateV, FrameV))
    requires
        0 <= n <= bs.len(),
        sane_binds(bs, bs.len() as int),
        written(ts, a, binds_lexis(bs, bs.len() as int)),
        ({
            let e = a + binds_lexis(bs, bs.len() as int).len();
            e < ts.len() && ts[e].tok is CloseBracket
        }),
        s.stack.len() + 1 + binds_depth(bs, bs.len() as int) <= MAX_PARSE_DEPTH,
        same_tree(u, s.stack.push(let_frame(start)), s.items, s),
    ensures
        goes_to(u, ts, a, r.0, a + binds_lexis(bs, n).len()),
        same_tree(r.0, s.stack.push(r.1), s.items, s),
        let_ready(r.1),
        r.1->LetDecl_span_start == start,
        let_all(r.1).len() == n,
        binds_read(let_all(r.1), bs, n, ts, a),
    decreases bs, n,
{
    if n == 0 {
        (u, let_frame(start))
    } else {
        let (b, f) = binds_are_read(bs, n - 1, s, u, ts, a, start);
        let at = a + binds_lexis(bs, n - 1).len();
        bind_of(bs, bs.len() as int, n - 1, ts, a);
        behind_bind(bs, n, ts, a);
        let (c, g, x) = bind_is_read(bs[n - 1], s, f, b, ts, at);
        longer_binds_read(let_all(f), let_all(g), bs, n - 1, ts, a);
        (c, g)
    }
}

pub(crate) proof fn let_is_read(bs: Seq<BindV>, s: StateV, ts: Seq<TokV>, i: int) -> (r: (StateV, NodeV))
    requires
        sane_binds(bs, bs.len() as int),
        written(ts, i, let_lexis(bs)),
        s.stack.len() + 1 + binds_depth(bs, bs.len() as int) <= MAX_PARSE_DEPTH,
        is_immediate_at(ts, i + let_lexis(bs).len()) ==> quiet(s),
    ensures
        let_reads(r.1, bs, ts, i),
        lands(s, ts, i, r.1, r.0, i + let_lexis(bs).len()),
    decreases bs, bs.len() + 1,
{
    keywords();
    let inner = binds_lexis(bs, bs.len() as int);
    let head = seq![KindV::Open, KindV::Word("let"@)];
    let close = seq![KindV::Close];
    written_parts(ts, i, head + inner, close);
    written_parts(ts, i, head, inner);
    assert(fits(ts, i + 0, head[0]));
    assert(fits(ts, i + 1, head[1]));
    let j = i + 2 + inner.len();
    assert(fits(ts, j + 0, close[0]));
    let start = ts[i].span;
    behind_bind(bs, 0, ts, i + 2);
    let u = word_opens(s, ts, i, let_frame(start));
    let (c, g) = binds_are_read(bs, bs.len() as int, s, u, ts, i + 2, start);
    let_shuts(g, ts[j].span);
    let n = let_node(g, ts[j].span);
    let d = closed_lands(s, c, g, n, ts, i, j);
    (d, n)
}

// Bodies.

/// The terms of the body of a function or of a case.
spec fn body_of(f: FrameV) -> Seq<NodeV> {
    match f {
        FrameV::Fn { body, .. } => body,
        FrameV::CaseDecl { body, .. } => body,
        _ => Seq::empty(),
    }
}

spec fn with_body(f: FrameV, body: Seq<NodeV>) -> FrameV {
    match f {
        FrameV::Fn { params, return_ann, span_start, params_consumed, .. } => FrameV::Fn {
            params,
            body,
            return_ann,
            span_start,
            params_consumed,
        },
        FrameV::CaseDecl { let_bindings, pattern, span_start, .. } => FrameV::CaseDecl {
            let_bindings,
            pattern,
            body,
            span_start,
        },
        _ => f,
    }
}

spec fn takes_body(f: FrameV) -> bool {
    match f {
        FrameV::Fn { params_consumed, .. } => params_consumed,
        FrameV::CaseDecl { let_bindings, pattern, .. } => let_bindings is Some && pattern is Some,
        _ => false,
    }
}

proof fn body_grows(f: FrameV, n: NodeV)
    requires
        takes_body(f),
    ensures
        place(f, n) == (with_body(f, body_of(f).push(n)), None::<ErrV>),
        steady_frame(f),
{
}

pub(crate) proof fn term_of(ws: Seq<TermV>, n: int, k: int, ts: Seq<TokV>, a: int)
    requires
        0 <= k < n <= ws.len(),
        sane_terms(ws, n),
        written(ts, a, terms_lexis(ws, n)),
    ensures
        sane(ws[k]),
        depth(ws[k]) <= terms_depth(ws, n),
        written(ts, a + terms_lexis(ws, k).len(), lexis(ws[k])),
        terms_lexis(ws, k).len() + lexis(ws[k]).len() == terms_lexis(ws, k + 1).len(),
    decreases n,
{
    written_parts(ts, a, terms_lexis(ws, n - 1), lexis(ws[n - 1]));
    if k < n - 1 {
        term_of(ws, n - 1, k, ts, a);
    }
}

pub(crate) proof fn behind_term(ws: Seq<TermV>, n: int, ts: Seq<TokV>, a: int)
    requires
        0 <= n <= ws.len(),
        sane_terms(ws, ws.len() as int),
        written(ts, a, terms_lexis(ws, ws.len() as int)),
        calm_end(ts, a + terms_lexis(ws, ws.len() as int).len()),
    ensures
        calm_end(ts, a + terms_lexis(ws, n).len()),
{
    if n < ws.len() {
        term_of(ws, ws.len() as int, n, ts, a);
        first_is_calm(ws[n], ts, a + terms_lexis(ws, n).len());
    }
}

proof fn longer_terms_read(
    ns: Seq<NodeV>,
    ms: Seq<NodeV>,
    ws: Seq<TermV>,
    n: int,
    ts: Seq<TokV>,
    a: int,
)
    requires
        0 <= n <= ws.len(),
        n <= ns.len(),
        n <= ms.len(),
        forall|k: int| 0 <= k < n ==> #[trigger] ms[k] == ns[k],
        terms_read(ns, ws, n, ts, a),
    ensures
        terms_read(ms, ws, n, ts, a),
    decreases n,
{
    if n > 0 {
        longer_terms_read(ns, ms, ws, n - 1, ts, a);
        assert(ms[n - 1] == ns[n - 1]);
    }
}

proof fn body_is_read(
    ws: Seq<TermV>,
    n: int,
    f: FrameV,
    s: StateV,
    u: StateV,
    ts: Seq<TokV>,
    a: int,
) -> (r: (StateV, Seq<NodeV>))
    requires
        0 <= n <= ws.len(),
        sane_terms(ws, ws.len() as int),
        written(ts, a, terms_lexis(ws, ws.len() as int)),
        calm_end(ts, a + terms_lexis(ws, ws.len() as int).len()),
        s.stack.len() + 1 + terms_depth(ws, ws.len() as int) <= MAX_PARSE_DEPTH,
        takes_body(f),
        body_of(f).len() == 0,
        same_tree(u, s.stack.push(f), s.items, s),
    ensures
        goes_to(u, ts, a, r.0, a + terms_lexis(ws, n).len()),
        same_tree(r.0, s.stack.push(with_body(f, r.1)), s.items, s),
        r.1.len() == n,
        terms_read(r.1, ws, n, ts, a),
    decreases ws, n,
{
    if n == 0 {
        assert(body_of(f) =~= Seq::empty());
        (u, Seq::empty())
    } else {
        let (b, body) = body_is_read(ws, n - 1, f, s, u, ts, a);
        let at = a + terms_lexis(ws, n - 1).len();
        term_of(ws, ws.len() as int, n - 1, ts, a);
        behind_term(ws, n, ts, a);
        let g = with_body(f, body);
        assert(b.stack.last() == g);
        assert(takes_body(g));
        assert(body_of(g) == body);
        let (c, m) = term_is_read(ws[n - 1], b, ts, at);
        body_grows(g, m);
        lands_inside(s, g, b, ts, at, m, c, at + lexis(ws[n - 1]).len());
        longer_terms_read(body, body.push(m), ws, n - 1, ts, a);
        (c, body.push(m))
    }
}

// Functions.

proof fn longer_params_read(
    ps: Seq<ParamV>,
    qs: Seq<ParamV>,
    bs: Seq<BindV>,
    n: int,
    ts: Seq<TokV>,
    a: int,
)
    requires
        0 <= n <= bs.len(),
        n <= ps.len(),
        n <= qs.len(),
        forall|k: int| 0 <= k < n ==> #[trigger] qs[k] == ps[k],
        params_read(ps, bs, n, ts, a),
    ensures
        params_read(qs, bs, n, ts, a),
    decreases n,
{
    if n > 0 {
        longer_params_read(ps, qs, bs, n - 1, ts, a);
        assert(qs[n - 1] == ps[n - 1]);
    }
}

proof fn bind_is_param(n: NodeV, b: BindV, ts: Seq<TokV>, a: int)
    requires
        bind_reads(n, b, ts, a),
        !(b is Group),
    ensures
        is_param(n.expr),
        param_of(n) is Some,
        param_reads(param_of(n)->0, b, ts, a),
{
}

proof fn params_are_read(ns: Seq<NodeV>, bs: Seq<BindV>, n: int, ts: Seq<TokV>, a: int)
    requires
        0 <= n <= bs.len(),
        ns.len() == n,
        no_groups(bs),
        binds_read(ns, bs, n, ts, a),
    ensures
        only_params(ns),
        params_of(ns).len() == n,
        params_read(params_of(ns), bs, n, ts, a),
    decreases n,
{
    if n > 0 {
        let less = ns.drop_last();
        longer_binds_read(ns, less, bs, n - 1, ts, a);
        params_are_read(less, bs, n - 1, ts, a);
        assert(!(bs[n - 1] is Group));
        bind_is_param(ns[n - 1], bs[n - 1], ts, a + binds_lexis(bs, n - 1).len());
        longer_params_read(params_of(less), params_of(ns), bs, n - 1, ts, a);
        assert forall|i: int| 0 <= i < ns.len() implies is_param((#[trigger] ns[i]).expr) by {
            if i < n - 1 {
                assert(is_param(less[i].expr));
            }
        }
    }
}

proof fn fn_opens(s: StateV, ts: Seq<TokV>, i: int) -> (u: StateV)
    requires
        open_host(s),
        0 <= i,
        i + 2 < ts.len(),
        ts[i].tok is OpenBracket,
        ts[i + 1].tok == TokenV::Identifier("fn"@),
        calm_end(ts, i + 2),
    ensures
        goes_to(s, ts, i, u, i + 2),
        same_tree(u, s.stack.push(fn_frame(ts[i].span)), s.items, s),
{
    reveal(step);
    reveal(open_step);
    next_is_here(ts, i + 1);
    next_is_here(ts, i + 2);
    let u = pushed(
        StateV { comments: crate::stream::skipped(ts, i + 1, s.comments), ..s },
        fn_frame(ts[i].span),
    );
    assert(step(s, ts, i) == StepV::Next(u, i + 2));
    step_goes(s, ts, i, u, i + 2);
    u
}

spec fn fn_node(f: FrameV, span: SpanV) -> NodeV {
    let at = form_span(f->Fn_span_start, span);
    NodeV {
        expr: ExprV::Fn {
            return_ann: None,
            params: f->Fn_params,
            body: Box::new(crate::close::fn_body(f->Fn_body, at)),
            desugared: false,
        },
        span: at,
    }
}

proof fn fn_shuts(f: FrameV, span: SpanV)
    requires
        f is Fn,
        f->Fn_body.len() > 0,
        f->Fn_return_ann is None,
    ensures
        shuts(f, fn_node(f, span), span),
{
    reveal(shuts);
}

proof fn fn_is_read(w: TermV, s: StateV, ts: Seq<TokV>, i: int) -> (r: (StateV, NodeV))
    requires
        w is Fn,
        hosted(w, s, ts, i),
    ensures
        reads(r.1, w, ts, i),
        lands(s, ts, i, r.1, r.0, i + lexis(w).len()),
    decreases w, 1int,
{
    match w {
        TermV::Fn { params, body } => {
            keywords();
            let n = body.len() as int;
            let start = ts[i].span;
            let ll = let_lexis(params);
            let rest = terms_lexis(body, n);
            form_of("fn"@, ll + rest, ts, i);
            written_parts(ts, i + 2, ll, rest);
            assert(fits(ts, i + 2, ll[0]));
            let a = i + 2 + ll.len();
            let j = a + rest.len();
            let u = fn_opens(s, ts, i);
            let f = fn_frame(start);
            assert(u.stack.last() == f);
            behind_term(body, 0, ts, a);
            let (b, l) = let_is_read(params, u, ts, i + 2);
            let ns = l.expr->LetDecl_bindings;
            assert(let_reads(l, params, ts, i + 2));
            params_are_read(ns, params, params.len() as int, ts, i + 4);
            lands_inside(s, f, u, ts, i + 2, l, b, a);
            let g = place(f, l).0;
            let (c, nodes) = body_is_read(body, n, g, s, b, ts, a);
            let h = with_body(g, nodes);
            fn_shuts(h, ts[j].span);
            let node = fn_node(h, ts[j].span);
            let t = closed_lands(s, c, h, node, ts, i, j);
            fn_reads(params, body, h, ts, i);
            (t, node)
        },
        _ => (s, arbitrary()),
    }
}

proof fn fn_reads(params: Seq<BindV>, body: Seq<TermV>, h: FrameV, ts: Seq<TokV>, i: int)
    requires
        h is Fn,
        h->Fn_span_start == ts[i].span,
        h->Fn_params.len() == params.len(),
        params_read(h->Fn_params, params, params.len() as int, ts, i + 4),
        h->Fn_body.len() == body.len(),
        body.len() > 0,
        terms_read(
            h->Fn_body,
            body,
            body.len() as int,
            ts,
            i + 2 + let_lexis(params).len(),
        ),
    ensures
        ({
            let w = TermV::Fn { params, body };
            reads(fn_node(h, ts[i + lexis(w).len() - 1].span), w, ts, i)
        }),
{
    let w = TermV::Fn { params, body };
    let at = i + 2 + let_lexis(params).len();
    if body.len() == 1 {
        assert(terms_lexis(body, 0).len() == 0);
        assert(reads(h->Fn_body[0], body[0], ts, at + terms_lexis(body, 0).len()));
    }
}

// Matches.

spec fn match_with(subject: NodeV, arms: Seq<ArmV>, start: SpanV) -> FrameV {
    FrameV::Match {
        scrutinee: Some(subject),
        arms,
        pending_pattern_expr: None,
        pending_pattern: None,
        span_start: start,
    }
}

proof fn clause_of(cs: Seq<ClauseV>, n: int, k: int, ts: Seq<TokV>, a: int)
    requires
        0 <= k < n <= cs.len(),
        sane_clauses(cs, n),
        written(ts, a, clauses_lexis(cs, n)),
    ensures
        sane_clause(cs[k]),
        clause_depth(cs[k]) <= clauses_depth(cs, n),
        written(ts, a + clauses_lexis(cs, k).len(), clause_lexis(cs[k])),
        clauses_lexis(cs, k).len() + clause_lexis(cs[k]).len() == clauses_lexis(cs, k + 1).len(),
    decreases n,
{
    written_parts(ts, a, clauses_lexis(cs, n - 1), clause_lexis(cs[n - 1]));
    if k < n - 1 {
        clause_of(cs, n - 1, k, ts, a);
    }
}

proof fn clause_first(c: ClauseV, ts: Seq<TokV>, at: int)
    requires
        sane_clause(c),
        written(ts, at, clause_lexis(c)),
    ensures
        calm_end(ts, at),
{
    match c {
        ClauseV::Plain { pattern, body } => {
            written_parts(ts, at, lexis(pattern) + seq![KindV::Colon], lexis(body));
            written_parts(ts, at, lexis(pattern), seq![KindV::Colon]);
            first_is_calm(pattern, ts, at);
        },
        ClauseV::Case { .. } => {
            assert(clause_lexis(c)[0] is Open);
            assert(fits(ts, at + 0, clause_lexis(c)[0]));
        },
    }
}

proof fn behind_clause(cs: Seq<ClauseV>, n: int, ts: Seq<TokV>, a: int)
    requires
        0 <= n <= cs.len(),
        sane_clauses(cs, cs.len() as int),
        written(ts, a, clauses_lexis(cs, cs.len() as int)),
        calm_end(ts, a + clauses_lexis(cs, cs.len() as int).len()),
    ensures
        calm_end(ts, a + clauses_lexis(cs, n).len()),
{
    if n < cs.len() {
        clause_of(cs, cs.len() as int, n, ts, a);
        clause_first(cs[n], ts, a + clauses_lexis(cs, n).len());
    }
}

proof fn longer_clauses_read(
    xs: Seq<ArmV>,
    ys: Seq<ArmV>,
    cs: Seq<ClauseV>,
    n: int,
    ts: Seq<TokV>,
    a: int,
)
    requires
        0 <= n <= cs.len(),
        n <= xs.len(),
        n <= ys.len(),
        forall|k: int| 0 <= k < n ==> #[trigger] ys[k] == xs[k],
        clauses_read(xs, cs, n, ts, a),
    ensures
        clauses_read(ys, cs, n, ts, a),
    decreases n,
{
    if n > 0 {
        longer_clauses_read(xs, ys, cs, n - 1, ts, a);
        assert(ys[n - 1] == xs[n - 1]);
    }
}

/// A form with a pattern that waits for its colon.
spec fn match_waits(subject: NodeV, arms: Seq<ArmV>, pattern: NodeV, start: SpanV) -> FrameV {
    FrameV::Match {
        scrutinee: Some(subject),
        arms,
        pending_pattern_expr: Some(pattern),
        pending_pattern: None,
        span_start: start,
    }
}

proof fn plain_clause_is_read(
    c: ClauseV,
    subject: NodeV,
    arms: Seq<ArmV>,
    start: SpanV,
    s: StateV,
    u: StateV,
    ts: Seq<TokV>,
    at: int,
) -> (r: (StateV, ArmV))
    requires
        c is Plain,
        sane_clause(c),
        written(ts, at, clause_lexis(c)),
        calm_end(ts, at + clause_lexis(c).len()),
        s.stack.len() + 1 + clause_depth(c) <= MAX_PARSE_DEPTH,
        same_tree(u, s.stack.push(match_with(subject, arms, start)), s.items, s),
    ensures
        goes_to(u, ts, at, r.0, at + clause_lexis(c).len()),
        same_tree(r.0, s.stack.push(match_with(subject, arms.push(r.1), start)), s.items, s),
        clause_reads(r.1, c, ts, at),
    decreases c, 1int,
{
    match c {
        ClauseV::Plain { pattern, body } => {
            let colon = seq![KindV::Colon];
            written_parts(ts, at, lexis(pattern) + colon, lexis(body));
            written_parts(ts, at, lexis(pattern), colon);
            let j = at + lexis(pattern).len();
            let e = j + 1 + lexis(body).len();
            assert(fits(ts, j + 0, colon[0]));
            let f = match_with(subject, arms, start);
            assert(u.stack.last() == f);
            let (b, x) = match pattern {
                TermV::Name(name) => {
                    assert(fits(ts, at + 0, lexis(pattern)[0]));
                    word_is_token(name);
                    let x = var_node(name, false, ts[at].span);
                    let g = match_waits(subject, arms, x, start);
                    let b = word_key_is_taken(u, ts, at, name, g);
                    (b, x)
                },
                _ => {
                    let (b, x) = term_is_read(pattern, u, ts, at);
                    lands_inside(s, f, u, ts, at, x, b, j);
                    (b, x)
                },
            };
            assert(b.stack =~= s.stack.push(match_waits(subject, arms, x, start)));
            assert(b.stack.last() == match_waits(subject, arms, x, start));
            let h = FrameV::Match {
                scrutinee: Some(subject),
                arms,
                pending_pattern_expr: None,
                pending_pattern: Some((x, None)),
                span_start: start,
            };
            let d = colon_is_passed(b, ts, j, h);
            assert(d.stack =~= s.stack.push(h));
            assert(d.stack.last() == h);
            let (v, m) = term_is_read(body, d, ts, j + 1);
            lands_inside(s, h, d, ts, j + 1, m, v, e);
            let arm = ArmV { pattern: x, let_bindings: None, guard: None, body: seq![m] };
            (v, arm)
        },
        _ => (u, arbitrary()),
    }
}

/// A case that is closed is an arm of the match around it.
proof fn case_closes(
    s: StateV,
    subject: NodeV,
    arms: Seq<ArmV>,
    start: SpanV,
    f: FrameV,
    inner: StateV,
    ts: Seq<TokV>,
    j: int,
) -> (t: StateV)
    requires
        0 <= j < ts.len(),
        ts[j].tok is CloseBracket,
        f is CaseDecl,
        f->CaseDecl_let_bindings is Some,
        f->CaseDecl_pattern is Some,
        f->CaseDecl_body.len() > 0,
        same_tree(
            inner,
            s.stack.push(match_with(subject, arms, start)).push(f),
            s.items,
            s,
        ),
    ensures
        goes_to(inner, ts, j, t, j + 1),
        same_tree(
            t,
            s.stack.push(
                match_with(
                    subject,
                    arms.push(
                        ArmV {
                            pattern: f->CaseDecl_pattern->0,
                            let_bindings: f->CaseDecl_let_bindings,
                            guard: None,
                            body: f->CaseDecl_body,
                        },
                    ),
                    start,
                ),
            ),
            s.items,
            s,
        ),
{
    reveal(step);
    reveal(close_step);
    let span = ts[j].span;
    let base = s.stack.push(match_with(subject, arms, start));
    assert(inner.stack.last() == f);
    assert(inner.stack.drop_last() =~= base);
    assert(base.last() == match_with(subject, arms, start));
    assert(base.drop_last() =~= s.stack);
    let popped = StateV { stack: base, popped: Some((form_name(f), opened_at(f))), ..inner };
    let arm = ArmV {
        pattern: f->CaseDecl_pattern->0,
        let_bindings: f->CaseDecl_let_bindings,
        guard: None,
        body: f->CaseDecl_body,
    };
    let b = StateV {
        stack: s.stack.push(match_with(subject, arms.push(arm), start)),
        ..popped
    };
    assert(closed(popped, f, span) == b);
    assert(b.stack.last() is Match);
    let chained = is_immediate_at(ts, j + 1);
    let d = drained(b.stack, b.items, chained);
    assert(d.stack == b.stack && d.items == b.items && d.error is None);
    let t = StateV {
        last: Some(span),
        node: drained_node(b.stack, b.items, chained, b.node),
        ..with_placed(b, d)
    };
    assert(step(inner, ts, j) == StepV::Next(t, j + 1));
    step_goes(inner, ts, j, t, j + 1);
    t
}

proof fn case_clause_is_read(
    c: ClauseV,
    subject: NodeV,
    arms: Seq<ArmV>,
    start: SpanV,
    s: StateV,
    u: StateV,
    ts: Seq<TokV>,
    at: int,
) -> (r: (StateV, ArmV))
    requires
        c is Case,
        sane_clause(c),
        written(ts, at, clause_lexis(c)),
        s.stack.len() + 1 + clause_depth(c) <= MAX_PARSE_DEPTH,
        same_tree(u, s.stack.push(match_with(subject, arms, start)), s.items, s),
    ensures
        goes_to(u, ts, at, r.0, at + clause_lexis(c).len()),
        same_tree(r.0, s.stack.push(match_with(subject, arms.push(r.1), start)), s.items, s),
        clause_reads(r.1, c, ts, at),
    decreases c, 1int,
{
    match c {
        ClauseV::Case { bindings, pattern, body } => {
            keywords();
            let n = body.len() as int;
            let head = seq![KindV::Open, KindV::Word("case"@)];
            let close = seq![KindV::Close];
            let ll = let_lexis(bindings);
            let pl = lexis(pattern);
            let bl = terms_lexis(body, n);
            written_parts(ts, at, head + ll + pl + bl, close);
            written_parts(ts, at, head + ll + pl, bl);
            written_parts(ts, at, head + ll, pl);
            written_parts(ts, at, head, ll);
            assert(fits(ts, at + 0, head[0]));
            assert(fits(ts, at + 1, head[1]));
            assert(fits(ts, at + 2, ll[0]));
            let p = at + 2 + ll.len();
            let q = p + pl.len();
            let j = q + bl.len();
            assert(fits(ts, j + 0, close[0]));
            assert(u.stack.last() is Match);
            let f = case_frame(ts[at].span);
            let b = word_opens(u, ts, at, f);
            assert(b.stack.last() == f);
            first_is_calm(pattern, ts, p);
            let (d, l) = let_is_read(bindings, b, ts, at + 2);
            lands_inside(u, f, b, ts, at + 2, l, d, p);
            let g = place(f, l).0;
            assert(d.stack.last() == g);
            behind_term(body, 0, ts, q);
            let (e, x) = term_is_read(pattern, d, ts, p);
            lands_inside(u, g, d, ts, p, x, e, q);
            let h = place(g, x).0;
            let (v, nodes) = body_is_read(body, n, h, u, e, ts, q);
            let k = with_body(h, nodes);
            let t = case_closes(s, subject, arms, start, k, v, ts, j);
            let arm = ArmV {
                pattern: x,
                let_bindings: Some(l),
                guard: None,
                body: nodes,
            };
            (t, arm)
        },
        _ => (u, arbitrary()),
    }
}

proof fn clauses_are_read(
    cs: Seq<ClauseV>,
    n: int,
    subject: NodeV,
    start: SpanV,
    s: StateV,
    u: StateV,
    ts: Seq<TokV>,
    a: int,
) -> (r: (StateV, Seq<ArmV>))
    requires
        0 <= n <= cs.len(),
        sane_clauses(cs, cs.len() as int),
        written(ts, a, clauses_lexis(cs, cs.len() as int)),
        calm_end(ts, a + clauses_lexis(cs, cs.len() as int).len()),
        s.stack.len() + 1 + clauses_depth(cs, cs.len() as int) <= MAX_PARSE_DEPTH,
        same_tree(u, s.stack.push(match_with(subject, Seq::empty(), start)), s.items, s),
    ensures
        goes_to(u, ts, a, r.0, a + clauses_lexis(cs, n).len()),
        same_tree(r.0, s.stack.push(match_with(subject, r.1, start)), s.items, s),
        r.1.len() == n,
        clauses_read(r.1, cs, n, ts, a),
    decreases cs, n,
{
    if n == 0 {
        (u, Seq::empty())
    } else {
        let (b, arms) = clauses_are_read(cs, n - 1, subject, start, s, u, ts, a);
        let at = a + clauses_lexis(cs, n - 1).len();
        clause_of(cs, cs.len() as int, n - 1, ts, a);
        behind_clause(cs, n, ts, a);
        let (c, arm) = match cs[n - 1] {
            ClauseV::Plain { .. } => plain_clause_is_read(
                cs[n - 1],
                subject,
                arms,
                start,
                s,
                b,
                ts,
                at,
            ),
            ClauseV::Case { .. } => case_clause_is_read(
                cs[n - 1],
                subject,
                arms,
                start,
                s,
                b,
                ts,
                at,
            ),
        };
        longer_clauses_read(arms, arms.push(arm), cs, n - 1, ts, a);
        (c, arms.push(arm))
    }
}

spec fn match_node(subject: NodeV, arms: Seq<ArmV>, start: SpanV, span: SpanV) -> NodeV {
    NodeV {
        expr: ExprV::Match { scrutinee: Box::new(subject), arms },
        span: form_span(start, span),
    }
}

proof fn match_shuts(subject: NodeV, arms: Seq<ArmV>, start: SpanV, span: SpanV)
    requires
        arms.len() > 0,
    ensures
        shuts(match_with(subject, arms, start), match_node(subject, arms, start, span), span),
{
    reveal(shuts);
}

proof fn match_is_read(w: TermV, s: StateV, ts: Seq<TokV>, i: int) -> (r: (StateV, NodeV))
    requires
        w is Match,
        hosted(w, s, ts, i),
    ensures
        reads(r.1, w, ts, i),
        lands(s, ts, i, r.1, r.0, i + lexis(w).len()),
    decreases w, 1int,
{
    match w {
        TermV::Match { subject, arms } => {
            keywords();
            let n = arms.len() as int;
            let start = ts[i].span;
            let sl = lexis(*subject);
            let rest = clauses_lexis(arms, n);
            form_of("match"@, sl + rest, ts, i);
            written_parts(ts, i + 2, sl, rest);
            let a = i + 2 + sl.len();
            let j = a + rest.len();
            first_is_calm(*subject, ts, i + 2);
            let f = keyword_frame("match"@, start)->0;
            let u = keyword_opens(s, ts, i, "match"@, f);
            assert(u.stack.last() == f);
            behind_clause(arms, 0, ts, a);
            let (b, x) = term_is_read(*subject, u, ts, i + 2);
            lands_inside(s, f, u, ts, i + 2, x, b, a);
            assert(place(f, x).0 == match_with(x, Seq::empty(), start));
            let (c, given) = clauses_are_read(arms, n, x, start, s, b, ts, a);
            match_shuts(x, given, start, ts[j].span);
            let node = match_node(x, given, start, ts[j].span);
            let t = closed_lands(s, c, match_with(x, given, start), node, ts, i, j);
            (t, node)
        },
        _ => (s, arbitrary()),
    }
}

/// A term is read.
pub(crate) proof fn term_is_read(w: TermV, s: StateV, ts: Seq<TokV>, i: int) -> (r: (StateV, NodeV))
    requires
        hosted(w, s, ts, i),
    ensures
        reads(r.1, w, ts, i),
        lands(s, ts, i, r.1, r.0, i + lexis(w).len()),
    decreases w, 2int,
{
    match w {
        TermV::Dict(_) => dict_is_read(w, s, ts, i),
        TermV::Call { .. } => call_is_read(w, s, ts, i),
        TermV::Apply { .. } => apply_is_read(w, s, ts, i),
        TermV::Quote(_) | TermV::Unquote(_) | TermV::UnquoteSplice(_) => quote_is_read(
            w,
            s,
            ts,
            i,
        ),
        TermV::Field { .. } | TermV::Index { .. } => field_is_read(w, s, ts, i),
        TermV::Pipe { .. } => pipe_is_read(w, s, ts, i),
        TermV::Noted { .. } => noted_is_read(w, s, ts, i),
        TermV::Assert { .. } => assert_is_read(w, s, ts, i),
        TermV::Rest(name) => rest_is_read(name, s, ts, i),
        TermV::Let(bs) => {
            assert(lexis(w) == let_lexis(bs));
            let r = let_is_read(bs, s, ts, i);
            assert(let_reads(r.1, bs, ts, i));
            assert(let_lexis(bs).len() > 0);
            r
        },
        TermV::Fn { .. } => fn_is_read(w, s, ts, i),
        TermV::Match { .. } => match_is_read(w, s, ts, i),
        _ => atom_is_read(w, s, ts, i),
    }
}

} // verus!
