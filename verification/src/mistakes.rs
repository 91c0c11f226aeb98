//! Brackets that do not go together: a bracket that closes nothing and a bracket that is left open
//! are refused, with the bracket as the place of the error.
use crate::close::close_step;
use crate::lexer::{tokens_of, TokV};
use crate::model::Text;
use crate::open::{dict_frame, open_step, pushed, MAX_PARSE_DEPTH};
use crate::pages::{lines_are_fine, lines_are_read, lines_lexis, lines_sane, LineV};
use crate::parser::{outcome, parsed, step};
use crate::parser2::{
    idle, next_piece, outcome as sheet_outcome, parsed2, piece_step, piece_step_advances, BuilderV,
    StepV as SheetStepV,
};
use crate::pieces::{pieces_of, PieceAtV, PieceV};
use crate::reading::{
    dict_parts_are_read, fits, key_is_token, next_is_here, part_of, step_goes, written,
    written_parts,
};
use crate::scan::KindV;
use crate::sources::{
    all_legible, fine_is_legible, kinds_of, legible_sum, parts_are_fine, tokens_are_made,
    tokens_placed, well_spaced,
};
use crate::spelling::{spelled, MarkV};
use crate::state::{start_state, StateV, StepV};
use crate::terms::{labels_differ, parts_depth, parts_lexis, sane_parts, PartV};
use crate::text::byte_len;
use vstd::prelude::*;

verus! {

/// A bracket that closes nothing is refused, whatever lines stand before and behind it: the error is
/// about that bracket.
pub proof fn stray_close_is_refused(
    ms: Seq<MarkV>,
    before: Seq<LineV>,
    behind: Seq<LineV>,
    file: Text,
)
    requires
        lines_sane(before),
        lines_sane(behind),
        kinds_of(ms) == lines_lexis(before, before.len() as int) + seq![KindV::Close]
            + lines_lexis(behind, behind.len() as int),
        well_spaced(ms),
    ensures
        tokens_of(spelled(ms), file) matches Ok(ts) && tokens_placed(ts, ms, file) && (parsed(
            spelled(ms),
            file,
        ) matches Err(d) && d.spans.len() == 1 && d.spans[0].0 == ts[lines_lexis(
            before,
            before.len() as int,
        ).len() as int].span),
{
    let n = before.len() as int;
    let m = behind.len() as int;
    let close = seq![KindV::Close];
    lines_are_fine(before, n);
    lines_are_fine(behind, m);
    assert(all_legible(close));
    legible_sum(lines_lexis(before, n), close);
    legible_sum(lines_lexis(before, n) + close, lines_lexis(behind, m));
    tokens_are_made(ms, file);
    let ts = tokens_of(spelled(ms), file)->Ok_0;
    written_parts(ts, 0, lines_lexis(before, n) + close, lines_lexis(behind, m));
    written_parts(ts, 0, lines_lexis(before, n), close);
    let e = lines_lexis(before, n).len() as int;
    assert(fits(ts, e + 0, close[0]));
    let t = lines_are_read(before, n, start_state(), ts, 0);
    reveal(step);
    reveal(close_step);
    assert(outcome(t, ts, e) is Err);
}

/// A bracket that is left open is refused, whatever lines stand before it and whatever parts of a
/// dict behind it: the error starts at that bracket, and says what would help.
pub proof fn open_bracket_is_refused(
    ms: Seq<MarkV>,
    before: Seq<LineV>,
    ps: Seq<PartV>,
    file: Text,
)
    requires
        lines_sane(before),
        ps.len() > 0,
        !(ps[0].key is Bare),
        sane_parts(ps, ps.len() as int),
        labels_differ(ps),
        1 + parts_depth(ps, ps.len() as int) <= MAX_PARSE_DEPTH,
        kinds_of(ms) == lines_lexis(before, before.len() as int) + seq![KindV::Open] + parts_lexis(
            ps,
            ps.len() as int,
        ),
        well_spaced(ms),
    ensures
        tokens_of(spelled(ms), file) matches Ok(ts) && tokens_placed(ts, ms, file) && (parsed(
            spelled(ms),
            file,
        ) matches Err(d) && d.help is Some && d.spans.len() == 1 && ({
            let bracket = ts[lines_lexis(before, before.len() as int).len() as int].span;
            &&& d.spans[0].0.start_line == bracket.start_line
            &&& d.spans[0].0.start_col == bracket.start_col
            &&& d.spans[0].0.end_line == bracket.start_line
        })),
{
    let n = before.len() as int;
    let m = ps.len() as int;
    let open = seq![KindV::Open];
    lines_are_fine(before, n);
    parts_are_fine(ps, m);
    fine_is_legible(parts_lexis(ps, m));
    assert(all_legible(open));
    legible_sum(lines_lexis(before, n), open);
    legible_sum(lines_lexis(before, n) + open, parts_lexis(ps, m));
    tokens_are_made(ms, file);
    let ts = tokens_of(spelled(ms), file)->Ok_0;
    written_parts(ts, 0, lines_lexis(before, n) + open, parts_lexis(ps, m));
    written_parts(ts, 0, lines_lexis(before, n), open);
    let e = lines_lexis(before, n).len() as int;
    assert(fits(ts, e + 0, open[0]));
    let t = lines_are_read(before, n, start_state(), ts, 0);
    let u = keyed_dict_opens(ps, t, ts, e);
    let (b, f) = dict_parts_are_read(ps, m, t, u, ts, e + 1, ts[e].span);
    assert(b.stack.last() == f);
    assert(outcome(b, ts, ts.len() as int) is Err);
}

proof fn keyed_dict_opens(ps: Seq<PartV>, s: StateV, ts: Seq<TokV>, i: int) -> (t: StateV)
    requires
        s.stack.len() == 0,
        0 <= i < ts.len(),
        ts[i].tok is OpenBracket,
        ps.len() > 0,
        !(ps[0].key is Bare),
        sane_parts(ps, ps.len() as int),
        written(ts, i + 1, parts_lexis(ps, ps.len() as int)),
    ensures
        t == pushed(s, dict_frame(ts[i].span)),
        outcome(s, ts, i) == outcome(t, ts, i + 1),
{
    reveal(step);
    reveal(open_step);
    part_of(ps, ps.len() as int, 0, ts, i + 1);
    key_is_token(ps[0].key, ts, i + 1);
    next_is_here(ts, i + 2);
    next_is_here(ts, i + 1);
    let t = pushed(s, dict_frame(ts[i].span));
    assert(step(s, ts, i) == StepV::Next(t, i + 1));
    step_goes(s, ts, i, t, i + 1);
    t
}

// Brackets in the compact syntax.

/// What a piece adds to the number of open brackets.
pub open spec fn opens(t: PieceV) -> int {
    match t {
        PieceV::OpenBracket | PieceV::BracketAccess => 1,
        PieceV::CloseBracket => -1,
        _ => 0,
    }
}

/// What the pieces from one place to another add to the number of open brackets.
pub open spec fn open_between(ts: Seq<PieceAtV>, a: int, b: int) -> int
    decreases b - a,
{
    if a >= b {
        0
    } else {
        opens(ts[a].tok) + open_between(ts, a + 1, b)
    }
}

/// Whether the compact syntax has a use for a piece.
pub open spec fn of_use(t: PieceV) -> bool {
    !(t is DocSeparator || t is Dot || t is Range || t is Ellipsis)
}

proof fn open_between_calm(ts: Seq<PieceAtV>, a: int, b: int, c: int)
    requires
        a <= b <= c,
        forall|m: int| a <= m < b ==> opens((#[trigger] ts[m]).tok) == 0,
    ensures
        open_between(ts, a, c) == open_between(ts, b, c),
    decreases b - a,
{
    if a < b {
        open_between_calm(ts, a + 1, b, c);
    }
}

proof fn idle_up_to(ts: Seq<PieceAtV>, i: int)
    requires
        0 <= i,
    ensures
        i <= next_piece(ts, i),
        forall|m: int| i <= m < next_piece(ts, i) ==> idle((#[trigger] ts[m]).tok),
    decreases ts.len() - i,
{
    if i < ts.len() && idle(ts[i].tok) {
        idle_up_to(ts, i + 1);
    }
}

proof fn piece_moves(s: BuilderV, ts: Seq<PieceAtV>, i: int)
    requires
        0 <= i < ts.len(),
    ensures
        piece_step(s, ts, i) matches SheetStepV::Next(t, next) ==> {
            &&& i < next <= ts.len()
            &&& t.stack.len() == s.stack.len() + opens(ts[i].tok)
            &&& of_use(ts[i].tok)
            &&& forall|m: int|
                i < m < next ==> opens((#[trigger] ts[m]).tok) == 0 && of_use(ts[m].tok)
        },
{
    piece_step_advances(s, ts, i);
    idle_up_to(ts, i + 1);
    let k = next_piece(ts, i + 1);
    assert forall|m: int| i < m < k implies opens((#[trigger] ts[m]).tok) == 0 && of_use(
        ts[m].tok,
    ) by {
        assert(idle(ts[m].tok));
    }
}

proof fn rest_goes_together(s: BuilderV, ts: Seq<PieceAtV>, i: int, size: nat)
    requires
        0 <= i <= ts.len(),
        sheet_outcome(s, ts, i, size) is Ok,
    ensures
        forall|k: int|
            i <= k <= ts.len() ==> s.stack.len() + #[trigger] open_between(ts, i, k) >= 0,
        s.stack.len() + open_between(ts, i, ts.len() as int) == 0,
        forall|k: int| i <= k < ts.len() ==> of_use((#[trigger] ts[k]).tok),
    decreases ts.len() - i,
{
    if i < ts.len() {
        piece_moves(s, ts, i);
        match piece_step(s, ts, i) {
            SheetStepV::Next(t, next) => {
                rest_goes_together(t, ts, next, size);
                assert forall|k: int| i <= k <= ts.len() implies s.stack.len()
                    + #[trigger] open_between(ts, i, k) >= 0 by {
                    if next <= k {
                        open_between_calm(ts, i + 1, next, k);
                        assert(t.stack.len() + open_between(ts, next, k) >= 0);
                    } else if i < k {
                        open_between_calm(ts, i + 1, k, k);
                    }
                }
                open_between_calm(ts, i + 1, next, ts.len() as int);
            },
            _ => {},
        }
    } else {
        assert(open_between(ts, i, i) == 0);
    }
}

/// In a source of the compact syntax that parses, the brackets go together: no bracket closes what
/// is not open, and none is left open. Nothing stands in it that the syntax has no use for.
pub proof fn sheet_brackets_go_together(source: Text)
    requires
        parsed2(source) is Ok,
    ensures
        pieces_of(source) matches Ok(ts) && {
            &&& forall|k: int| 0 <= k <= ts.len() ==> #[trigger] open_between(ts, 0, k) >= 0
            &&& open_between(ts, 0, ts.len() as int) == 0
            &&& forall|k: int| 0 <= k < ts.len() ==> of_use((#[trigger] ts[k]).tok)
        },
{
    let ts = pieces_of(source)->Ok_0;
    let s = BuilderV { stack: Seq::empty(), expressions: Seq::empty() };
    rest_goes_together(s, ts, 0, byte_len(source));
}

} // verus!
