//! What is written is what is parsed: the source that is put together from the lexemes of terms
//! parses to the trees of these terms.
use crate::close::closed;
use crate::frame::FrameV;
use crate::lexer::{ends_value, immediate, region, token_of, tokens_from, tokens_of, TokV, TokenV};
use crate::model::{ArmV, ExprV, ItemV, NodeV, SpanV, Text};
use crate::open::{case_frame, MAX_PARSE_DEPTH};
use crate::parser::{outcome, parsed};
use crate::place::place;
use crate::reading::{
    atom, behind_term, fits, goes_to, landed, numeral_is_token, same_tree, term_is_read, term_of,
    written,
};
use crate::scan::{KindV, LexemeV};
use crate::spelling::{
    apart, decimal_numeral, legible, mark_end, mark_start, marks_read, readable, spelled,
    spelled_lexemes_are_read, spelling, MarkV,
};
use crate::state::{start_state, StateV};
use crate::terms::{
    bind_lexis, binds_lexis, clause_lexis, clauses_lexis, depth, form_lexis, key_lexis, larger,
    let_lexis, lexis,
    numeral, parts_lexis, reads, sane, sane_bind, sane_binds, sane_clause, sane_clauses, sane_key,
    sane_parts, sane_terms, terms_depth, terms_lexis, BindV, ClauseV, KeyV, PartV, TermV,
};
use vstd::prelude::*;

verus! {

/// Whether a lexeme can stand in a term.
pub(crate) open spec fn fine(k: KindV) -> bool {
    &&& legible(k)
    &&& token_of(k, false) is Ok
    &&& !(k is Comment || k is Newline || k is Semicolon)
}

/// Whether a lexeme stands where it can: an `@` behind what it can belong to, and a dot before what
/// can be taken of something.
pub(crate) open spec fn well_placed(ks: Seq<KindV>, i: int) -> bool {
    &&& fine(ks[i])
    &&& ks[i] is At ==> i > 0 && (ks[i - 1] is Open || ends_value(ks[i - 1]))
    &&& ks[i] is Dot ==> i + 1 < ks.len() && !(ks[i + 1] matches KindV::Number { fraction, .. }
        && fraction)
}

pub(crate) open spec fn all_fine(ks: Seq<KindV>) -> bool {
    forall|i: int| 0 <= i < ks.len() ==> #[trigger] well_placed(ks, i)
}

/// Whether a lexeme can be read where it stands.
pub(crate) open spec fn legible_at(ks: Seq<KindV>, i: int) -> bool {
    &&& legible(ks[i])
    &&& token_of(ks[i], false) is Ok
    &&& ks[i] is At ==> i > 0 && (ks[i - 1] is Open || ends_value(ks[i - 1]))
}

pub(crate) open spec fn all_legible(ks: Seq<KindV>) -> bool {
    forall|i: int| 0 <= i < ks.len() ==> #[trigger] legible_at(ks, i)
}

pub(crate) proof fn legible_sum(a: Seq<KindV>, b: Seq<KindV>)
    requires
        all_legible(a),
        all_legible(b),
    ensures
        all_legible(a + b),
{
    let c = a + b;
    assert forall|i: int| 0 <= i < c.len() implies #[trigger] legible_at(c, i) by {
        if i < a.len() {
            assert(legible_at(a, i));
        } else {
            assert(legible_at(b, i - a.len()));
        }
    }
}

pub(crate) proof fn fine_is_legible(ks: Seq<KindV>)
    requires
        all_fine(ks),
    ensures
        all_legible(ks),
{
    assert forall|i: int| 0 <= i < ks.len() implies #[trigger] legible_at(ks, i) by {
        assert(well_placed(ks, i));
    }
}

pub(crate) proof fn fine_sum(a: Seq<KindV>, b: Seq<KindV>)
    requires
        all_fine(a),
        all_fine(b),
    ensures
        all_fine(a + b),
{
    let c = a + b;
    assert forall|i: int| 0 <= i < c.len() implies #[trigger] well_placed(c, i) by {
        if i < a.len() {
            assert(well_placed(a, i));
        } else {
            assert(well_placed(b, i - a.len()));
        }
    }
}

/// An `@` can stand behind a term.
proof fn fine_at(a: Seq<KindV>)
    requires
        all_fine(a),
        a.len() > 0,
        ends_value(a.last()),
    ensures
        all_fine(a + seq![KindV::At]),
{
    let c = a + seq![KindV::At];
    assert forall|i: int| 0 <= i < c.len() implies #[trigger] well_placed(c, i) by {
        if i < a.len() {
            assert(well_placed(a, i));
        } else {
            assert(c[i - 1] == a.last());
        }
    }
}

proof fn term_ends(w: TermV)
    requires
        sane(w),
    ensures
        lexis(w).len() > 0,
        ends_value(lexis(w).last()),
    decreases w,
{
    match w {
        TermV::Pipe { lhs, rhs } => {
            term_ends(*rhs);
            assert(lexis(w) == lexis(*lhs) + seq![KindV::Pipe] + lexis(*rhs));
            assert(lexis(w).last() == lexis(*rhs).last());
        },
        TermV::Noted { target, note } => {
            term_ends(*note);
            assert(lexis(w) == lexis(*target) + seq![KindV::At] + lexis(*note));
            assert(lexis(w).last() == lexis(*note).last());
        },
        TermV::Let(bs) => {
            assert(lexis(w) == let_lexis(bs));
            assert(let_lexis(bs).last() is Close);
        },
        TermV::Field { target, name } => {
            assert(lexis(w).last() == KindV::Word(name));
        },
        TermV::Index { target, place } => {
            assert(lexis(w).last() == numeral(place as int));
        },
        TermV::Rest(s) => {
            assert(lexis(w).last() == KindV::Word(s));
        },
        TermV::Int(_) | TermV::U64(_) | TermV::Name(_) => {},
        TermV::Float(_) | TermV::Str { .. } | TermV::Ref(_) => {},
        _ => {
            assert(lexis(w).last() is Close);
        },
    }
}

proof fn numeral_is_fine(n: int)
    requires
        i64::MIN <= n <= u64::MAX,
    ensures
        fine(numeral(n)),
{
    numeral_is_token(n);
    numeral_is_legible(n);
}

pub(crate) proof fn numeral_is_legible(n: int)
    ensures
        legible(numeral(n)),
{
    let m = (if n < 0 {
        -n
    } else {
        n
    }) as nat;
    crate::lexer::decimal_is_digits(m);
    let ds = crate::text::decimal(m);
    assert forall|k: int| 0 <= k < ds.len() implies crate::spelling::digit_char(#[trigger] ds[k]) by {
        assert(crate::scan::digit(ds[k]));
    }
    if n < 0 {
        assert(crate::text::int_text(n).skip(1) =~= ds);
    }
}

/// The words of the forms are words.
proof fn keywords_are_fine()
    ensures
        fine(KindV::Word("let"@)),
        fine(KindV::Word("case"@)),
        fine(KindV::Word("fn"@)),
        fine(KindV::Word("call"@)),
        fine(KindV::Word("quote"@)),
        fine(KindV::Word("unquote"@)),
        fine(KindV::Word("unquote-splice"@)),
        fine(KindV::Word("match"@)),
{
    reveal_strlit("---");
    reveal_strlit("let");
    reveal_strlit("case");
    reveal_strlit("fn");
    reveal_strlit("call");
    reveal_strlit("quote");
    reveal_strlit("unquote");
    reveal_strlit("unquote-splice");
    reveal_strlit("match");
    assert("---"@[0] == '-');
    assert("let"@[0] == 'l');
    assert("case"@[0] == 'c');
    assert("fn"@[0] == 'f');
    assert("call"@[0] == 'c');
    assert("quote"@[0] == 'q');
    assert("unquote"@[0] == 'u');
    assert("unquote-splice"@[0] == 'u');
    assert("match"@[0] == 'm');
}

proof fn key_is_fine(key: KeyV)
    requires
        sane_key(key),
    ensures
        all_fine(key_lexis(key)),
{
    match key {
        KeyV::Number(n) => {
            numeral_is_fine(n as int);
        },
        _ => {},
    }
}

pub(crate) proof fn parts_are_fine(ps: Seq<PartV>, n: int)
    requires
        0 <= n <= ps.len(),
        sane_parts(ps, n),
    ensures
        all_fine(parts_lexis(ps, n)),
    decreases ps, n,
{
    if n > 0 {
        parts_are_fine(ps, n - 1);
        key_is_fine(ps[n - 1].key);
        term_is_fine(ps[n - 1].value);
        fine_sum(parts_lexis(ps, n - 1), key_lexis(ps[n - 1].key));
        fine_sum(
            parts_lexis(ps, n - 1) + key_lexis(ps[n - 1].key),
            lexis(ps[n - 1].value),
        );
    }
}

proof fn terms_are_fine(ws: Seq<TermV>, n: int)
    requires
        0 <= n <= ws.len(),
        sane_terms(ws, n),
    ensures
        all_fine(terms_lexis(ws, n)),
    decreases ws, n,
{
    if n > 0 {
        terms_are_fine(ws, n - 1);
        term_is_fine(ws[n - 1]);
        fine_sum(terms_lexis(ws, n - 1), lexis(ws[n - 1]));
    }
}

proof fn bind_is_fine(b: BindV)
    requires
        sane_bind(b),
    ensures
        all_fine(bind_lexis(b)),
    decreases b, 0int,
{
    match b {
        BindV::Default(s, w) => {
            term_is_fine(w);
            fine_sum(seq![KindV::Word(s), KindV::Colon], lexis(w));
        },
        BindV::Group(bs) => {
            let inner = binds_lexis(bs, bs.len() as int);
            binds_are_fine(bs, bs.len() as int);
            fine_sum(seq![KindV::Open], inner);
            fine_sum(seq![KindV::Open] + inner, seq![KindV::Close]);
        },
        _ => {},
    }
}

pub(crate) proof fn binds_are_fine(bs: Seq<BindV>, n: int)
    requires
        0 <= n <= bs.len(),
        sane_binds(bs, n),
    ensures
        all_fine(binds_lexis(bs, n)),
    decreases bs, n,
{
    if n > 0 {
        binds_are_fine(bs, n - 1);
        bind_is_fine(bs[n - 1]);
        fine_sum(binds_lexis(bs, n - 1), bind_lexis(bs[n - 1]));
    }
}

pub(crate) proof fn let_is_fine(bs: Seq<BindV>)
    requires
        sane_binds(bs, bs.len() as int),
    ensures
        all_fine(let_lexis(bs)),
    decreases bs, bs.len() + 1,
{
    keywords_are_fine();
    binds_are_fine(bs, bs.len() as int);
    wrapped_is_fine("let"@, binds_lexis(bs, bs.len() as int));
    assert(let_lexis(bs) == form_lexis("let"@, binds_lexis(bs, bs.len() as int)));
}

pub(crate) proof fn wrapped_is_fine(head: Text, inner: Seq<KindV>)
    requires
        fine(KindV::Word(head)),
        all_fine(inner),
    ensures
        all_fine(form_lexis(head, inner)),
{
    let first = seq![KindV::Open, KindV::Word(head)];
    fine_sum(first, inner);
    fine_sum(first + inner, seq![KindV::Close]);
}

proof fn clause_is_fine(c: ClauseV)
    requires
        sane_clause(c),
    ensures
        all_fine(clause_lexis(c)),
    decreases c, 0int,
{
    keywords_are_fine();
    match c {
        ClauseV::Plain { pattern, body } => {
            term_is_fine(pattern);
            term_is_fine(body);
            fine_sum(lexis(pattern), seq![KindV::Colon]);
            fine_sum(lexis(pattern) + seq![KindV::Colon], lexis(body));
        },
        ClauseV::Case { bindings, pattern, body } => {
            let head = seq![KindV::Open, KindV::Word("case"@)];
            let n = body.len() as int;
            let_is_fine(bindings);
            term_is_fine(pattern);
            terms_are_fine(body, n);
            fine_sum(head, let_lexis(bindings));
            fine_sum(head + let_lexis(bindings), lexis(pattern));
            fine_sum(head + let_lexis(bindings) + lexis(pattern), terms_lexis(body, n));
            fine_sum(
                head + let_lexis(bindings) + lexis(pattern) + terms_lexis(body, n),
                seq![KindV::Close],
            );
        },
    }
}

proof fn clauses_are_fine(cs: Seq<ClauseV>, n: int)
    requires
        0 <= n <= cs.len(),
        sane_clauses(cs, n),
    ensures
        all_fine(clauses_lexis(cs, n)),
    decreases cs, n,
{
    if n > 0 {
        clauses_are_fine(cs, n - 1);
        clause_is_fine(cs[n - 1]);
        fine_sum(clauses_lexis(cs, n - 1), clause_lexis(cs[n - 1]));
    }
}

pub(crate) proof fn term_is_fine(w: TermV)
    requires
        sane(w),
    ensures
        all_fine(lexis(w)),
    decreases w, 0int,
{
    keywords_are_fine();
    match w {
        TermV::Int(n) => {
            numeral_is_fine(n as int);
        },
        TermV::U64(n) => {
            numeral_is_fine(n as int);
        },
        TermV::Dict(ps) => {
            let inner = parts_lexis(ps, ps.len() as int);
            parts_are_fine(ps, ps.len() as int);
            fine_sum(seq![KindV::Open], inner);
            fine_sum(seq![KindV::Open] + inner, seq![KindV::Close]);
        },
        TermV::Call { func, args } => {
            parts_are_fine(args, args.len() as int);
            wrapped_is_fine(func, parts_lexis(args, args.len() as int));
        },
        TermV::Apply { func, args } => {
            let rest = parts_lexis(args, args.len() as int);
            term_is_fine(*func);
            parts_are_fine(args, args.len() as int);
            fine_sum(lexis(*func), rest);
            wrapped_is_fine("call"@, lexis(*func) + rest);
        },
        TermV::Fn { params, body } => {
            let rest = terms_lexis(body, body.len() as int);
            let_is_fine(params);
            terms_are_fine(body, body.len() as int);
            fine_sum(let_lexis(params), rest);
            wrapped_is_fine("fn"@, let_lexis(params) + rest);
        },
        TermV::Let(bs) => {
            let_is_fine(bs);
            assert(lexis(w) == let_lexis(bs));
        },
        TermV::Quote(inner) => {
            term_is_fine(*inner);
            wrapped_is_fine("quote"@, lexis(*inner));
        },
        TermV::Unquote(inner) => {
            term_is_fine(*inner);
            wrapped_is_fine("unquote"@, lexis(*inner));
        },
        TermV::UnquoteSplice(inner) => {
            term_is_fine(*inner);
            wrapped_is_fine("unquote-splice"@, lexis(*inner));
        },
        TermV::Match { subject, arms } => {
            let rest = clauses_lexis(arms, arms.len() as int);
            term_is_fine(*subject);
            clauses_are_fine(arms, arms.len() as int);
            fine_sum(lexis(*subject), rest);
            wrapped_is_fine("match"@, lexis(*subject) + rest);
        },
        TermV::Field { target, name } => {
            term_is_fine(*target);
            fine_sum(lexis(*target), seq![KindV::Dot, KindV::Word(name)]);
        },
        TermV::Index { target, place } => {
            term_is_fine(*target);
            numeral_is_fine(place as int);
            fine_sum(lexis(*target), seq![KindV::Dot, numeral(place as int)]);
        },
        TermV::Pipe { lhs, rhs } => {
            term_is_fine(*lhs);
            term_is_fine(*rhs);
            fine_sum(lexis(*lhs), seq![KindV::Pipe]);
            fine_sum(lexis(*lhs) + seq![KindV::Pipe], lexis(*rhs));
        },
        TermV::Noted { target, note } => {
            term_is_fine(*target);
            term_is_fine(*note);
            term_ends(*target);
            fine_at(lexis(*target));
            fine_sum(lexis(*target) + seq![KindV::At], lexis(*note));
        },
        TermV::Assert { note, value } => {
            let head = seq![KindV::Open, KindV::At];
            term_is_fine(*note);
            term_is_fine(*value);
            fine_sum(head, lexis(*note));
            fine_sum(head + lexis(*note), lexis(*value));
            fine_sum(head + lexis(*note) + lexis(*value), seq![KindV::Close]);
        },
        _ => {},
    }
}

/// Whether lexemes are spaced so that they can be told apart, and each `@` stands right behind what
/// it belongs to.
pub open spec fn well_spaced(ms: Seq<MarkV>) -> bool {
    &&& forall|k: int| 0 < k < ms.len() ==> apart(ms[k - 1].kind, #[trigger] ms[k])
    &&& forall|k: int|
        0 < k < ms.len() && (#[trigger] ms[k]).kind is At && !(ms[k - 1].kind is Open)
            ==> ms[k].gap == 0
}

/// The lexemes without their spaces.
pub open spec fn kinds_of(ms: Seq<MarkV>) -> Seq<KindV> {
    Seq::new(ms.len(), |k: int| ms[k].kind)
}

proof fn tokens_follow(src: Text, file: Text, ls: Seq<LexemeV>, k: int, made: Seq<TokV>)
    requires
        0 <= k <= ls.len(),
        made.len() == k,
        forall|j: int|
            0 <= j < k ==> token_of(ls[j].kind, immediate(ls, j)) == Ok::<TokenV, Text>(
                (#[trigger] made[j]).tok,
            ) && made[j].span == region(src, file, ls[j].start, ls[j].end),
        forall|j: int| 0 <= j < ls.len() ==> token_of((#[trigger] ls[j]).kind, false) is Ok,
    ensures
        tokens_from(src, file, ls, k, made) matches Ok(ts) && ts.len() == ls.len() && forall|j: int|
            0 <= j < ts.len() ==> token_of(ls[j].kind, immediate(ls, j)) == Ok::<TokenV, Text>(
                (#[trigger] ts[j]).tok,
            ) && ts[j].span == region(src, file, ls[j].start, ls[j].end),
    decreases ls.len() - k,
{
    if k < ls.len() {
        assert(token_of(ls[k].kind, false) is Ok);
        let tok = token_of(ls[k].kind, immediate(ls, k))->Ok_0;
        let t = TokV { tok, span: region(src, file, ls[k].start, ls[k].end) };
        tokens_follow(src, file, ls, k + 1, made.push(t));
    }
}

/// Whether tokens have the regions of the lexemes that they are spelled as.
pub open spec fn tokens_placed(ts: Seq<TokV>, ms: Seq<MarkV>, file: Text) -> bool {
    &&& ts.len() == ms.len()
    &&& forall|k: int|
        0 <= k < ts.len() ==> (#[trigger] ts[k]).span == region(
            spelled(ms),
            file,
            mark_start(ms, k),
            mark_end(ms, k),
        )
}

pub(crate) proof fn tokens_are_made(ms: Seq<MarkV>, file: Text)
    requires
        well_spaced(ms),
        all_legible(kinds_of(ms)),
    ensures
        tokens_of(spelled(ms), file) matches Ok(ts) && tokens_placed(ts, ms, file)
            && written(ts, 0, kinds_of(ms)),
{
    let ks = kinds_of(ms);
    assert(readable(ms)) by {
        assert forall|k: int| 0 <= k < ms.len() implies legible((#[trigger] ms[k]).kind) by {
            assert(legible_at(ks, k));
        }
    }
    spelled_lexemes_are_read(ms);
    let src = spelled(ms);
    let ls = marks_read(ms);
    assert forall|j: int| 0 <= j < ls.len() implies token_of((#[trigger] ls[j]).kind, false) is Ok by {
        assert(legible_at(ks, j));
    }
    tokens_follow(src, file, ls, 0, Seq::empty());
    let ts = tokens_of(src, file)->Ok_0;
    assert forall|k: int| 0 <= k < ks.len() implies fits(ts, 0 + k, #[trigger] ks[k]) by {
        assert(ls[k].kind == ks[k]);
        assert(legible_at(ks, k));
        assert(ts[k].span == region(src, file, ls[k].start, ls[k].end));
        if ks[k] is At {
            assert(ls[k - 1].kind == ks[k - 1]);
            assert(ts[k - 1].span == region(src, file, ls[k - 1].start, ls[k - 1].end));
            if !(ks[k - 1] is Open) {
                assert(ms[k].gap == 0);
                assert(ms.take(k - 1 + 1) =~= ms.take(k));
                assert(ls[k - 1].end == ls[k].start);
                assert(legible_at(ks, k - 1));
                assert(!(ts[k - 1].tok is OpenBracket)) by {
                    match ks[k - 1] {
                        KindV::Number { text, fraction } => {},
                        _ => {},
                    }
                }
            }
        }
    }
}

/// Whether the first `n` items are what the first `n` terms are read as.
pub open spec fn items_read(items: Seq<ItemV>, ws: Seq<TermV>, n: int, ts: Seq<TokV>) -> bool {
    forall|k: int|
        0 <= k < n ==> (#[trigger] items[k]) is Expr && reads(
            items[k]->Expr_0,
            ws[k],
            ts,
            terms_lexis(ws, k).len() as int,
        )
}

proof fn items_are_read(ws: Seq<TermV>, n: int, ts: Seq<TokV>) -> (t: StateV)
    requires
        0 <= n <= ws.len(),
        sane_terms(ws, ws.len() as int),
        terms_depth(ws, ws.len() as int) <= MAX_PARSE_DEPTH,
        written(ts, 0, terms_lexis(ws, ws.len() as int)),
        ts.len() == terms_lexis(ws, ws.len() as int).len(),
    ensures
        goes_to(start_state(), ts, 0, t, terms_lexis(ws, n).len() as int),
        same_tree(t, Seq::empty(), t.items, start_state()),
        t.items.len() == n,
        items_read(t.items, ws, n, ts),
    decreases n,
{
    if n == 0 {
        start_state()
    } else {
        let s = items_are_read(ws, n - 1, ts);
        let len = ws.len() as int;
        let at = terms_lexis(ws, n - 1).len() as int;
        term_of(ws, len, n - 1, ts, 0);
        behind_term(ws, n, ts, 0);
        let (t, m) = term_is_read(ws[n - 1], s, ts, at);
        landed(s, ts, at, m, t, at + lexis(ws[n - 1]).len());
        assert forall|k: int| 0 <= k < n implies (#[trigger] t.items[k]) is Expr && reads(
            t.items[k]->Expr_0,
            ws[k],
            ts,
            terms_lexis(ws, k).len() as int,
        ) by {
            if k < n - 1 {
                assert(t.items[k] == s.items[k]);
            }
        }
        t
    }
}

/// A source that is written as terms, with spaces that keep its lexemes apart, parses without a
/// report to one document whose items are the trees of the terms, in their order and with their
/// regions.
pub proof fn written_source_parses(ms: Seq<MarkV>, ws: Seq<TermV>, file: Text)
    requires
        sane_terms(ws, ws.len() as int),
        terms_depth(ws, ws.len() as int) <= MAX_PARSE_DEPTH,
        kinds_of(ms) == terms_lexis(ws, ws.len() as int),
        well_spaced(ms),
    ensures
        tokens_of(spelled(ms), file) matches Ok(ts) && tokens_placed(ts, ms, file) && (parsed(
            spelled(ms),
            file,
        ) matches Ok(o) && {
            &&& o.diagnostics.len() == 0
            &&& o.documents.len() == 1
            &&& o.documents[0].header.len() == 0
            &&& o.documents[0].items.len() == ws.len()
            &&& items_read(o.documents[0].items, ws, ws.len() as int, ts)
        }),
{
    let n = ws.len() as int;
    terms_are_fine(ws, n);
    fine_is_legible(terms_lexis(ws, n));
    tokens_are_made(ms, file);
    let ts = tokens_of(spelled(ms), file)->Ok_0;
    let t = items_are_read(ws, n, ts);
    assert(outcome(t, ts, ts.len() as int) is Ok);
}

/// Spaces that keep lexemes apart: one before each, but none before an `@`.
pub open spec fn evenly_spaced(ks: Seq<KindV>) -> Seq<MarkV> {
    Seq::new(
        ks.len(),
        |k: int|
            MarkV {
                kind: ks[k],
                gap: if ks[k] is At {
                    0
                } else {
                    1
                },
            },
    )
}

/// Every row of terms can be written as a source, and that source parses to their trees.
pub proof fn every_term_can_be_written(ws: Seq<TermV>, file: Text)
    requires
        sane_terms(ws, ws.len() as int),
        terms_depth(ws, ws.len() as int) <= MAX_PARSE_DEPTH,
    ensures
        ({
            let ms = evenly_spaced(terms_lexis(ws, ws.len() as int));
            &&& kinds_of(ms) == terms_lexis(ws, ws.len() as int)
            &&& well_spaced(ms)
            &&& tokens_of(spelled(ms), file) matches Ok(ts) && (parsed(spelled(ms), file) matches Ok(
                o,
            ) && {
                &&& o.diagnostics.len() == 0
                &&& o.documents.len() == 1
                &&& o.documents[0].items.len() == ws.len()
                &&& items_read(o.documents[0].items, ws, ws.len() as int, ts)
            })
        }),
{
    let ks = terms_lexis(ws, ws.len() as int);
    let ms = evenly_spaced(ks);
    terms_are_fine(ws, ws.len() as int);
    assert(kinds_of(ms) =~= ks);
    assert forall|k: int| 0 < k < ms.len() implies apart(ms[k - 1].kind, #[trigger] ms[k]) by {
        assert(well_placed(ks, k) && well_placed(ks, k - 1));
    }
    written_source_parses(ms, ws, file);
}

/// A source that is nothing but one literal or name parses to one document with that literal or
/// name: a numeral with a fraction is a number with the digits that are written, a whole one is
/// that integer, and a string has the prefix, the quotation marks and the content that are written.
pub proof fn lone_literal_parses(w: TermV, file: Text)
    requires
        atom(w),
        sane(w),
    ensures
        parsed(spelling(lexis(w)[0]), file) matches Ok(o) && {
            &&& o.diagnostics.len() == 0
            &&& o.documents.len() == 1
            &&& o.documents[0].items.len() == 1
            &&& o.documents[0].items[0] matches ItemV::Expr(n) && match w {
                TermV::Int(k) => n.expr == ExprV::Int(k),
                TermV::U64(k) => n.expr == ExprV::U64(k),
                TermV::Float(d) => n.expr == ExprV::Float(d),
                TermV::Str { prefix, delimiter, content } => n.expr == (ExprV::StringLiteral {
                    prefix,
                    delimiter,
                    content,
                }),
                TermV::Name(s) => n.expr == (ExprV::VarRef {
                    name: s,
                    escaped: false,
                    annotation: None,
                }),
                TermV::Ref(s) => n.expr == (ExprV::VarRef {
                    name: s,
                    escaped: true,
                    annotation: None,
                }),
                _ => false,
            }
        },
{
    let ws = seq![w];
    let m = MarkV { kind: lexis(w)[0], gap: 0 };
    let ms = seq![m];
    assert(terms_lexis(ws, 0) =~= Seq::empty());
    assert(terms_lexis(ws, 1) == terms_lexis(ws, 0) + lexis(ws[0]));
    assert(lexis(w).len() == 1);
    assert(kinds_of(ms) =~= terms_lexis(ws, 1));
    assert(sane_terms(ws, 0));
    assert(sane_terms(ws, 1));
    assert(terms_depth(ws, 0) == 0);
    assert(depth(w) == 0);
    assert(terms_depth(ws, 1) == larger(terms_depth(ws, 0), depth(ws[0])));
    assert(ms.drop_last() =~= Seq::empty());
    assert(spelled(ms.drop_last()) =~= Seq::empty());
    assert(spelled(ms) =~= spelling(m.kind));
    written_source_parses(ms, ws, file);
    let ts = tokens_of(spelled(ms), file)->Ok_0;
    let o = parsed(spelled(ms), file)->Ok_0;
    assert(reads(o.documents[0].items[0]->Expr_0, ws[0], ts, 0));
}

/// A source that is a numeral with a fraction, and nothing else, parses to that number.
pub proof fn numeral_parses(d: Text, file: Text)
    requires
        decimal_numeral(d),
    ensures
        parsed(d, file) matches Ok(o) && o.diagnostics.len() == 0 && o.documents.len() == 1
            && o.documents[0].items.len() == 1 && (o.documents[0].items[0] matches ItemV::Expr(n)
            && n.expr == ExprV::Float(d)),
{
    lone_literal_parses(TermV::Float(d), file);
}

/// Nodes that are put one after the other into a form.
pub open spec fn put_all(f: FrameV, nodes: Seq<NodeV>) -> FrameV
    decreases nodes.len(),
{
    if nodes.len() == 0 {
        f
    } else {
        place(put_all(f, nodes.drop_last()), nodes.last()).0
    }
}

/// A case inside a match: its first part is the bindings, its second the pattern, and the others
/// are the body. Closing it adds one arm with these behind the arms of the match, and changes
/// nothing else of the match.
pub proof fn case_parts_make_an_arm(
    s: StateV,
    start: SpanV,
    first: NodeV,
    second: NodeV,
    rest: Seq<NodeV>,
    end: SpanV,
)
    requires
        s.stack.len() > 0,
        s.stack.last() is Match,
        s.stack.last()->Match_pending_pattern_expr is None,
        s.stack.last()->Match_pending_pattern is None,
        rest.len() > 0,
    ensures
        ({
            let f = put_all(case_frame(start), seq![first, second] + rest);
            let after = closed(s, f, end);
            let before = s.stack.last();
            let m = after.stack.last();
            &&& after.stack.len() == s.stack.len()
            &&& after.stack.drop_last() == s.stack.drop_last()
            &&& m is Match
            &&& m->Match_scrutinee == before->Match_scrutinee
            &&& m->Match_pending_pattern_expr is None
            &&& m->Match_pending_pattern is None
            &&& m->Match_arms.len() == before->Match_arms.len() + 1
            &&& m->Match_arms.drop_last() == before->Match_arms
            &&& m->Match_arms.last().let_bindings == Some(first)
            &&& m->Match_arms.last().pattern == second
            &&& m->Match_arms.last().body == rest
            &&& m->Match_arms.last().guard is None
            &&& after.items == s.items
            &&& after.diagnostics == s.diagnostics
        }),
{
    let parts = seq![first, second] + rest;
    let f = put_all(case_frame(start), parts);
    case_is_filled(start, first, second, rest, parts.len() as int);
    assert(parts.take(parts.len() as int) =~= parts);
    assert(rest.take(rest.len() as int) =~= rest);
    let arm = ArmV {
        pattern: second,
        let_bindings: Some(first),
        guard: None,
        body: rest,
    };
    case_is_closed(s, f, arm, end);
    let m = s.stack.last();
    assert(m->Match_arms.push(arm).drop_last() =~= m->Match_arms);
    let g = FrameV::Match {
        scrutinee: m->Match_scrutinee,
        arms: m->Match_arms.push(arm),
        pending_pattern_expr: None,
        pending_pattern: None,
        span_start: m->Match_span_start,
    };
    assert(s.stack.drop_last().push(g).drop_last() =~= s.stack.drop_last());
}

proof fn case_is_closed(s: StateV, f: FrameV, arm: ArmV, end: SpanV)
    requires
        s.stack.len() > 0,
        s.stack.last() is Match,
        s.stack.last()->Match_pending_pattern_expr is None,
        s.stack.last()->Match_pending_pattern is None,
        arm.body.len() > 0,
        arm.guard is None,
        f matches FrameV::CaseDecl { let_bindings, pattern, body, .. } && let_bindings is Some
            && let_bindings == arm.let_bindings && pattern == Some(arm.pattern) && body == arm.body,
    ensures
        closed(s, f, end) == (StateV {
            stack: s.stack.drop_last().push(
                FrameV::Match {
                    scrutinee: s.stack.last()->Match_scrutinee,
                    arms: s.stack.last()->Match_arms.push(arm),
                    pending_pattern_expr: None,
                    pending_pattern: None,
                    span_start: s.stack.last()->Match_span_start,
                },
            ),
            ..s
        }),
{
}

proof fn case_is_filled(start: SpanV, first: NodeV, second: NodeV, rest: Seq<NodeV>, n: int)
    requires
        2 <= n <= rest.len() + 2,
    ensures
        put_all(case_frame(start), (seq![first, second] + rest).take(n)) == (FrameV::CaseDecl {
            let_bindings: Some(first),
            pattern: Some(second),
            body: rest.take(n - 2),
            span_start: start,
        }),
    decreases n,
{
    let all = seq![first, second] + rest;
    assert(all.take(n).drop_last() =~= all.take(n - 1));
    if n == 2 {
        assert(all.take(1).drop_last() =~= Seq::empty());
        assert(put_all(case_frame(start), all.take(1).drop_last()) == case_frame(start));
        assert(all.take(1).last() == first);
        assert(all.take(2).last() == second);
        assert(rest.take(0) =~= Seq::empty());
    } else {
        case_is_filled(start, first, second, rest, n - 1);
        assert(rest.take(n - 3).push(rest[n - 3]) =~= rest.take(n - 2));
    }
}

} // verus!
