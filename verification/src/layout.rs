//! Layout has no meaning in the compact syntax: line ends, semicolons and comments change nothing
//! but the places in the outcome of a parse.
use crate::model::Text;
use crate::parser2::{
    accessed, call_tree, colon_next, form_opened, form_region, form_tree, form_with, form_with_key,
    idle, keyed, keyed_args, located_pairs, next_piece, note_at, noted, opened, outcome, parsed2,
    piece_step, piece_step_advances, plain_args, pushed_value, shut, valued, worded, ArgV, BuilderV,
    FormV, SheetsV, StepV,
};
use crate::pieces::{pieces_of, FailureV, PieceAtV, PieceV};
use crate::text::byte_len;
use crate::tree::{BarePairV, LeafV, NoteV, Region, TreeV};
use vstd::prelude::*;

verus! {

/// The tokens that carry meaning from place `i` on, without their places.
pub open spec fn meaning_from(tokens: Seq<PieceAtV>, i: int) -> Seq<PieceV>
    decreases tokens.len() - i,
{
    if i < 0 || i >= tokens.len() {
        Seq::empty()
    } else if idle(tokens[i].tok) {
        meaning_from(tokens, i + 1)
    } else {
        seq![tokens[i].tok] + meaning_from(tokens, i + 1)
    }
}

/// Whether two annotations are equal apart from their places.
pub open spec fn alike_notes(x: Option<NoteV>, y: Option<NoteV>) -> bool {
    match (x, y) {
        (Some(a), Some(b)) => a.ann == b.ann,
        (None, None) => true,
        _ => false,
    }
}

/// Whether two expressions are equal apart from their places.
pub open spec fn alike(x: LeafV, y: LeafV) -> bool
    decreases x,
{
    alike_trees(x.expr, y.expr)
}

/// Whether two keys are equal apart from their places.
pub open spec fn alike_keys(x: Option<LeafV>, y: Option<LeafV>) -> bool
    decreases x,
{
    match (x, y) {
        (Some(a), Some(b)) => alike(a, b),
        (None, None) => true,
        _ => false,
    }
}

/// Whether two expressions are equal apart from the places in them.
pub open spec fn alike_trees(x: TreeV, y: TreeV) -> bool
    decreases x,
{
    match (x, y) {
        (TreeV::Int(a), TreeV::Int(b)) => a == b,
        (TreeV::Float(a), TreeV::Float(b)) => a == b,
        (TreeV::Bool(a), TreeV::Bool(b)) => a == b,
        (TreeV::Str(a), TreeV::Str(b)) => a == b,
        (TreeV::VarRef(a), TreeV::VarRef(b)) => a == b,
        (TreeV::Dict(a), TreeV::Dict(b)) => {
            &&& a.len() == b.len()
            &&& forall|i: int|
                #![trigger a[i]]
                #![trigger b[i]]
                0 <= i < a.len() ==> alike_keys(a[i].key, b[i].key) && alike(
                    a[i].value,
                    b[i].value,
                )
        },
        (
            TreeV::Call { func: f, args: a, named_args: n },
            TreeV::Call { func: g, args: b, named_args: m },
        ) => {
            &&& alike(*f, *g)
            &&& a.len() == b.len()
            &&& forall|i: int|
                #![trigger a[i]]
                #![trigger b[i]]
                0 <= i < a.len() ==> alike(a[i], b[i])
            &&& n.len() == m.len()
            &&& forall|i: int|
                #![trigger n[i]]
                #![trigger m[i]]
                0 <= i < n.len() ==> n[i].name == m[i].name && alike(n[i].value, m[i].value)
        },
        (
            TreeV::Fn { return_ann: r, params: p, body: f, desugared: d },
            TreeV::Fn { return_ann: s, params: q, body: g, desugared: e },
        ) => alike_notes(r, s) && p == q && alike(*f, *g) && d == e,
        (TreeV::TypeAlias(f), TreeV::TypeAlias(g)) => alike(*f, *g),
        (
            TreeV::TypeAssert { annotation: a, expr: f },
            TreeV::TypeAssert { annotation: b, expr: g },
        ) => a.ann == b.ann && alike(*f, *g),
        (
            TreeV::BracketAccess { expr: f, key: k },
            TreeV::BracketAccess { expr: g, key: l },
        ) => alike(*f, *g) && alike(*k, *l),
        _ => false,
    }
}

/// Whether expressions are equal apart from their places.
pub open spec fn all_alike(a: Seq<LeafV>, b: Seq<LeafV>) -> bool {
    &&& a.len() == b.len()
    &&& forall|i: int|
        #![trigger a[i]]
        #![trigger b[i]]
        0 <= i < a.len() ==> alike(a[i], b[i])
}

/// Whether two outcomes are equal apart from the places in them.
pub open spec fn alike_outcomes(
    x: Result<SheetsV, FailureV>,
    y: Result<SheetsV, FailureV>,
) -> bool {
    match (x, y) {
        (Ok(a), Ok(b)) => {
            &&& a.documents.len() == b.documents.len()
            &&& forall|i: int|
                #![trigger a.documents[i]]
                #![trigger b.documents[i]]
                0 <= i < a.documents.len() ==> all_alike(
                    a.documents[i].expressions,
                    b.documents[i].expressions,
                )
        },
        (Err(a), Err(b)) => a.message == b.message,
        _ => false,
    }
}

spec fn alike_entries(a: Seq<BarePairV>, b: Seq<BarePairV>) -> bool {
    &&& a.len() == b.len()
    &&& forall|i: int|
        #![trigger a[i]]
        #![trigger b[i]]
        0 <= i < a.len() ==> alike_keys(a[i].key, b[i].key) && alike(a[i].value, b[i].value)
}

spec fn alike_arg(x: ArgV, y: ArgV) -> bool {
    match (x, y) {
        (ArgV::Positional(a), ArgV::Positional(b)) => alike(a, b),
        (ArgV::Named(n, a), ArgV::Named(m, b)) => n == m && alike(a, b),
        _ => false,
    }
}

spec fn alike_args(a: Seq<ArgV>, b: Seq<ArgV>) -> bool {
    &&& a.len() == b.len()
    &&& forall|i: int|
        #![trigger a[i]]
        #![trigger b[i]]
        0 <= i < a.len() ==> alike_arg(a[i], b[i])
}

spec fn alike_names(x: Option<(Text, Region)>, y: Option<(Text, Region)>) -> bool {
    match (x, y) {
        (Some((a, _)), Some((b, _))) => a == b,
        (None, None) => true,
        _ => false,
    }
}

spec fn alike_forms(x: FormV, y: FormV) -> bool {
    match (x, y) {
        (
            FormV::Dict { entries: a, pending_key: k, .. },
            FormV::Dict { entries: b, pending_key: l, .. },
        ) => alike_entries(a, b) && alike_keys(k, l),
        (
            FormV::Call { args: a, pending_key: k, .. },
            FormV::Call { args: b, pending_key: l, .. },
        ) => alike_args(a, b) && alike_names(k, l),
        (
            FormV::Fn { body: a, return_ann: r, .. },
            FormV::Fn { body: b, return_ann: s, .. },
        ) => alike_keys(a, b) && alike_notes(r, s),
        (FormV::TypeAlias { type_expr: a, .. }, FormV::TypeAlias { type_expr: b, .. }) => {
            alike_keys(a, b)
        },
        (
            FormV::TypeAssert { annotation: n, expr: a, .. },
            FormV::TypeAssert { annotation: m, expr: b, .. },
        ) => alike_notes(n, m) && alike_keys(a, b),
        (
            FormV::BracketAccessKey { target: t, key_expr: a, .. },
            FormV::BracketAccessKey { target: u, key_expr: b, .. },
        ) => alike(t, u) && alike_keys(a, b),
        _ => false,
    }
}

spec fn alike_states(s: BuilderV, t: BuilderV) -> bool {
    &&& s.stack.len() == t.stack.len()
    &&& forall|i: int|
        #![trigger s.stack[i]]
        #![trigger t.stack[i]]
        0 <= i < s.stack.len() ==> alike_forms(s.stack[i], t.stack[i])
    &&& all_alike(s.expressions, t.expressions)
}

proof fn alike_with(f: FormV, g: FormV, x: LeafV, y: LeafV)
    requires
        alike_forms(f, g),
        alike(x, y),
    ensures
        match (form_with(f, x), form_with(g, y)) {
            (Ok(a), Ok(b)) => alike_forms(a, b),
            (Err(a), Err(b)) => a.message == b.message,
            _ => false,
        },
{
}

proof fn alike_pushed(s: BuilderV, t: BuilderV, x: LeafV, y: LeafV)
    requires
        alike_states(s, t),
        alike(x, y),
    ensures
        match (pushed_value(s, x), pushed_value(t, y)) {
            (Ok(a), Ok(b)) => alike_states(a, b),
            (Err(a), Err(b)) => a.message == b.message,
            _ => false,
        },
{
    if s.stack.len() > 0 {
        assert(s.stack.last() == s.stack[s.stack.len() - 1]);
        assert(t.stack.last() == t.stack[t.stack.len() - 1]);
        alike_with(s.stack.last(), t.stack.last(), x, y);
    }
}

proof fn alike_split_args(a: Seq<ArgV>, b: Seq<ArgV>)
    requires
        alike_args(a, b),
    ensures
        all_alike(plain_args(a), plain_args(b)),
        keyed_args(a).len() == keyed_args(b).len(),
        forall|i: int|
            #![trigger keyed_args(a)[i]]
            #![trigger keyed_args(b)[i]]
            0 <= i < keyed_args(a).len() ==> keyed_args(a)[i].name == keyed_args(b)[i].name
                && alike(keyed_args(a)[i].value, keyed_args(b)[i].value),
    decreases a.len(),
{
    if a.len() > 0 {
        let n = a.len() - 1;
        assert(alike_arg(a[n], b[n]));
        assert(alike_args(a.drop_last(), b.drop_last())) by {
            assert forall|i: int| 0 <= i < n implies alike_arg(a[i], b[i]) by {}
        }
        alike_split_args(a.drop_last(), b.drop_last());
    }
}

proof fn alike_closed(f: FormV, g: FormV, p: Region, q: Region)
    requires
        alike_forms(f, g),
    ensures
        match (form_tree(f, p), form_tree(g, q)) {
            (Ok((a, _)), Ok((b, _))) => alike_trees(a, b),
            (Err(a), Err(b)) => a.message == b.message,
            _ => false,
        },
{
    match (f, g) {
        (
            FormV::Call { args: a, pending_key: k, .. },
            FormV::Call { args: b, pending_key: l, .. },
        ) => {
            if a.len() > 0 {
                assert(alike_arg(a[0], b[0]));
                assert(alike_args(a.skip(1), b.skip(1))) by {
                    assert forall|i: int| 0 <= i < a.len() - 1 implies alike_arg(
                        #[trigger] a.skip(1)[i],
                        b.skip(1)[i],
                    ) by {
                        assert(alike_arg(a[i + 1], b[i + 1]));
                    }
                }
                alike_split_args(a.skip(1), b.skip(1));
            }
            assert(call_tree(a, k, p) is Ok == call_tree(b, l, q) is Ok);
        },
        (FormV::Dict { entries: a, .. }, FormV::Dict { entries: b, .. }) => {
            let x = located_pairs(a);
            let y = located_pairs(b);
            assert forall|i: int| 0 <= i < a.len() implies alike_keys(
                (#[trigger] x[i]).key,
                y[i].key,
            ) && alike(x[i].value, y[i].value) by {
                assert(alike(a[i].value, b[i].value));
            }
        },
        _ => {},
    }
}

/// Whether two steps lead to states and places with the same meaning.
spec fn alike_steps(x: StepV, y: StepV, a: Seq<PieceAtV>, b: Seq<PieceAtV>) -> bool {
    match (x, y) {
        (StepV::Next(s, i), StepV::Next(t, j)) => alike_states(s, t) && meaning_from(a, i)
            == meaning_from(b, j),
        (StepV::Failed(e), StepV::Failed(f)) => e.message == f.message,
        _ => false,
    }
}

proof fn meaning_at_next(tokens: Seq<PieceAtV>, i: int)
    requires
        0 <= i <= tokens.len(),
    ensures
        i <= next_piece(tokens, i) <= tokens.len(),
        meaning_from(tokens, i) == meaning_from(tokens, next_piece(tokens, i)),
        next_piece(tokens, i) == tokens.len() <==> meaning_from(tokens, i).len() == 0,
        next_piece(tokens, i) < tokens.len() ==> {
            let k = next_piece(tokens, i);
            &&& !idle(tokens[k].tok)
            &&& meaning_from(tokens, i)[0] == tokens[k].tok
            &&& meaning_from(tokens, k + 1) == meaning_from(tokens, i).skip(1)
        },
    decreases tokens.len() - i,
{
    if i < tokens.len() {
        if idle(tokens[i].tok) {
            meaning_at_next(tokens, i + 1);
        } else {
            assert(meaning_from(tokens, i).skip(1) =~= meaning_from(tokens, i + 1));
        }
    }
}

/// Whether two places hold the same token, with the same meaning behind it.
spec fn same_place(a: Seq<PieceAtV>, i: int, b: Seq<PieceAtV>, j: int) -> bool {
    &&& 0 <= i < a.len()
    &&& 0 <= j < b.len()
    &&& a[i].tok == b[j].tok
    &&& !idle(a[i].tok)
    &&& meaning_from(a, i + 1) == meaning_from(b, j + 1)
}

proof fn same_place_behind(a: Seq<PieceAtV>, i: int, b: Seq<PieceAtV>, j: int)
    requires
        same_place(a, i, b, j),
    ensures
        ({
            let k = next_piece(a, i + 1);
            let l = next_piece(b, j + 1);
            &&& i < k <= a.len()
            &&& j < l <= b.len()
            &&& k == a.len() <==> l == b.len()
            &&& k < a.len() ==> same_place(a, k, b, l)
        }),
        colon_next(a, i) == colon_next(b, j),
{
    meaning_at_next(a, i + 1);
    meaning_at_next(b, j + 1);
}

proof fn alike_opened(
    s: BuilderV,
    t: BuilderV,
    a: Seq<PieceAtV>,
    i: int,
    b: Seq<PieceAtV>,
    j: int,
)
    requires
        alike_states(s, t),
        same_place(a, i, b, j),
    ensures
        alike_steps(opened(s, a, i), opened(t, b, j), a, b),
{
    same_place_behind(a, i, b, j);
    let k = next_piece(a, i + 1);
    let l = next_piece(b, j + 1);
    if k < a.len() {
        same_place_behind(a, k, b, l);
    }
    let (f, m) = form_opened(a, i);
    let (g, n) = form_opened(b, j);
    assert(alike_forms(f, g));
    assert(meaning_from(a, m) == meaning_from(b, n));
}

proof fn alike_valued(
    s: BuilderV,
    t: BuilderV,
    x: LeafV,
    y: LeafV,
    a: Seq<PieceAtV>,
    i: int,
    b: Seq<PieceAtV>,
    j: int,
)
    requires
        alike_states(s, t),
        alike(x, y),
        same_place(a, i, b, j),
    ensures
        alike_steps(valued(s, x, i), valued(t, y, j), a, b),
{
    alike_pushed(s, t, x, y);
}

proof fn alike_shut(s: BuilderV, t: BuilderV, a: Seq<PieceAtV>, i: int, b: Seq<PieceAtV>, j: int)
    requires
        alike_states(s, t),
        same_place(a, i, b, j),
    ensures
        alike_steps(shut(s, a[i].span, i), shut(t, b[j].span, j), a, b),
{
    if s.stack.len() > 0 {
        let p = a[i].span;
        let q = b[j].span;
        assert(alike_forms(s.stack[s.stack.len() - 1], t.stack[t.stack.len() - 1]));
        alike_closed(s.stack.last(), t.stack.last(), p, q);
        let s1 = BuilderV { stack: s.stack.drop_last(), ..s };
        let t1 = BuilderV { stack: t.stack.drop_last(), ..t };
        assert(alike_states(s1, t1));
        match (form_tree(s.stack.last(), p), form_tree(t.stack.last(), q)) {
            (Ok((x, m)), Ok((y, n))) => {
                alike_valued(
                    s1,
                    t1,
                    LeafV { expr: x, span: form_region(m, p) },
                    LeafV { expr: y, span: form_region(n, q) },
                    a,
                    i,
                    b,
                    j,
                );
            },
            _ => {},
        }
    }
}

proof fn alike_worded(
    s: BuilderV,
    t: BuilderV,
    word: Text,
    a: Seq<PieceAtV>,
    i: int,
    b: Seq<PieceAtV>,
    j: int,
)
    requires
        alike_states(s, t),
        same_place(a, i, b, j),
    ensures
        alike_steps(worded(s, word, a, i), worded(t, word, b, j), a, b),
{
    same_place_behind(a, i, b, j);
    let x = LeafV { expr: TreeV::Str(word), span: a[i].span };
    let y = LeafV { expr: TreeV::Str(word), span: b[j].span };
    assert(alike(x, y));
    alike_valued(s, t, x, y, a, i, b, j);
    if s.stack.len() > 0 {
        assert(alike_forms(s.stack[s.stack.len() - 1], t.stack[t.stack.len() - 1]));
        match (
            form_with_key(s.stack.last(), word, a[i].span),
            form_with_key(t.stack.last(), word, b[j].span),
        ) {
            (Some(f), Some(g)) => {
                assert(alike_forms(f, g));
            },
            _ => {},
        }
    }
}

proof fn alike_noted(s: BuilderV, t: BuilderV, a: Seq<PieceAtV>, i: int, b: Seq<PieceAtV>, j: int)
    requires
        alike_states(s, t),
        same_place(a, i, b, j),
    ensures
        alike_steps(noted(s, a, i), noted(t, b, j), a, b),
{
    same_place_behind(a, i, b, j);
    if s.stack.len() > 0 {
        assert(alike_forms(s.stack[s.stack.len() - 1], t.stack[t.stack.len() - 1]));
        match (note_at(a, i), note_at(b, j)) {
            (Ok((x, m)), Ok((y, n))) => {
                assert(x.ann == y.ann);
                assert(meaning_from(a, m) == meaning_from(b, n));
            },
            (Err(x), Err(y)) => {
                assert(x.message == y.message);
            },
            _ => {
                assert(false);
            },
        }
    }
}

proof fn alike_step(s: BuilderV, t: BuilderV, a: Seq<PieceAtV>, i: int, b: Seq<PieceAtV>, j: int)
    requires
        alike_states(s, t),
        same_place(a, i, b, j),
    ensures
        alike_steps(piece_step(s, a, i), piece_step(t, b, j), a, b),
{
    let p = a[i].span;
    let q = b[j].span;
    match a[i].tok {
        PieceV::OpenBracket => alike_opened(s, t, a, i, b, j),
        PieceV::BracketAccess => {
            if s.stack.len() == 0 && s.expressions.len() > 0 {
                let n = s.expressions.len() - 1;
                assert(alike(s.expressions[n], t.expressions[n]));
            }
            assert(alike_steps(accessed(s, p, i), accessed(t, q, j), a, b));
        },
        PieceV::CloseBracket => alike_shut(s, t, a, i, b, j),
        PieceV::Colon => {
            if s.stack.len() > 0 {
                assert(alike_forms(s.stack[s.stack.len() - 1], t.stack[t.stack.len() - 1]));
            }
            assert(alike_steps(keyed(s, p, i), keyed(t, q, j), a, b));
        },
        PieceV::Int(n) => {
            let x = TreeV::Int(n);
            assert(alike_trees(x, x));
            alike_valued(s, t, LeafV { expr: x, span: p }, LeafV { expr: x, span: q }, a, i, b, j);
        },
        PieceV::Float(n) => {
            let x = TreeV::Float(n);
            assert(alike_trees(x, x));
            alike_valued(s, t, LeafV { expr: x, span: p }, LeafV { expr: x, span: q }, a, i, b, j);
        },
        PieceV::BoolLit(n) => {
            let x = TreeV::Bool(n);
            assert(alike_trees(x, x));
            alike_valued(s, t, LeafV { expr: x, span: p }, LeafV { expr: x, span: q }, a, i, b, j);
        },
        PieceV::QuotedString(n) => {
            let x = TreeV::Str(n);
            assert(alike_trees(x, x));
            alike_valued(s, t, LeafV { expr: x, span: p }, LeafV { expr: x, span: q }, a, i, b, j);
        },
        PieceV::VarRef(n) => {
            let x = TreeV::VarRef(n);
            assert(alike_trees(x, x));
            alike_valued(s, t, LeafV { expr: x, span: p }, LeafV { expr: x, span: q }, a, i, b, j);
        },
        PieceV::BareWord(word) => alike_worded(s, t, word, a, i, b, j),
        PieceV::At | PieceV::ImmediateAt => alike_noted(s, t, a, i, b, j),
        _ => {},
    }
}

proof fn alike_runs(
    s: BuilderV,
    a: Seq<PieceAtV>,
    i: int,
    m: nat,
    t: BuilderV,
    b: Seq<PieceAtV>,
    j: int,
    n: nat,
)
    requires
        alike_states(s, t),
        0 <= i <= a.len(),
        0 <= j <= b.len(),
        meaning_from(a, i) == meaning_from(b, j),
    ensures
        alike_outcomes(outcome(s, a, i, m), outcome(t, b, j, n)),
    decreases a.len() - i + b.len() - j,
{
    if i < a.len() && idle(a[i].tok) {
        alike_runs(s, a, i + 1, m, t, b, j, n);
    } else if j < b.len() && idle(b[j].tok) {
        alike_runs(s, a, i, m, t, b, j + 1, n);
    } else if i < a.len() {
        assert(j < b.len());
        assert(meaning_from(a, i)[0] == a[i].tok);
        assert(meaning_from(b, j)[0] == b[j].tok);
        assert(meaning_from(a, i).skip(1) =~= meaning_from(a, i + 1));
        assert(meaning_from(b, j).skip(1) =~= meaning_from(b, j + 1));
        alike_step(s, t, a, i, b, j);
        piece_step_advances(s, a, i);
        piece_step_advances(t, b, j);
        match (piece_step(s, a, i), piece_step(t, b, j)) {
            (StepV::Next(s1, i1), StepV::Next(t1, j1)) => {
                alike_runs(s1, a, i1, m, t1, b, j1, n);
            },
            _ => {},
        }
    } else {
        assert(meaning_from(b, j).len() == 0);
        assert(j == b.len());
    }
}

/// Two sources whose tokens differ only in line ends, semicolons and comments lead to the same
/// expressions apart from their places, or fail with the same message.
pub proof fn layout_has_no_meaning(x: Text, y: Text)
    requires
        pieces_of(x) is Ok,
        pieces_of(y) is Ok,
        meaning_from(pieces_of(x)->Ok_0, 0) == meaning_from(pieces_of(y)->Ok_0, 0),
    ensures
        alike_outcomes(parsed2(x), parsed2(y)),
{
    let s = BuilderV { stack: Seq::empty(), expressions: Seq::empty() };
    alike_runs(
        s,
        pieces_of(x)->Ok_0,
        0,
        byte_len(x),
        s,
        pieces_of(y)->Ok_0,
        0,
        byte_len(y),
    );
}

} // verus!
