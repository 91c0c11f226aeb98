//! What holds of a collector over any sequence of calls: how identities are given out, what
//! closing a span restores, and what draining hands out.
use crate::model::Text;
use crate::profiling::{
    close_keeps_growth, fresh, ids_grow, innermost, open_keeps_growth, place_bounds, record_place,
    span_closed, span_opened, spans_drained, spans_extracted, stall_keeps_growth, stalled,
    stalled_place, undrained, CollectorV, RecordV, SourceV,
};
use vstd::prelude::*;

verus! {

/// A call that changes a collector, with the time that it records.
pub enum CallV {
    Open(SourceV, u64),
    Close(u64),
    Stall(u64, Text),
    Drain,
    Extract,
}

/// Whether a collector accepts a call.
pub open spec fn accepts(c: CollectorV, call: CallV) -> bool {
    match call {
        CallV::Open(_, _) => c.next_id < u64::MAX,
        CallV::Close(_) => innermost(c) is Some,
        CallV::Stall(stall_us, _) => stalled_place(c) matches Some(i) ==> c.spans[i].stall_us
            + stall_us <= u64::MAX,
        CallV::Drain | CallV::Extract => true,
    }
}

/// The collector after a call.
pub open spec fn called(c: CollectorV, call: CallV) -> CollectorV {
    match call {
        CallV::Open(source, start_us) => span_opened(c, source, start_us),
        CallV::Close(end_us) => span_closed(c, end_us),
        CallV::Stall(stall_us, kind) => stalled(c, stall_us, kind),
        CallV::Drain => spans_drained(c),
        CallV::Extract => spans_extracted(c),
    }
}

/// The collector after calls, one after the other.
pub open spec fn after_calls(c: CollectorV, calls: Seq<CallV>) -> CollectorV
    decreases calls.len(),
{
    if calls.len() == 0 {
        c
    } else {
        called(after_calls(c, calls.drop_last()), calls.last())
    }
}

/// Whether a collector accepts calls, one after the other.
pub open spec fn accepts_all(c: CollectorV, calls: Seq<CallV>) -> bool
    decreases calls.len(),
{
    calls.len() > 0 ==> accepts_all(c, calls.drop_last()) && accepts(
        after_calls(c, calls.drop_last()),
        calls.last(),
    )
}

/// The identities that the calls that open a span return, in order.
pub open spec fn returned_ids(c: CollectorV, calls: Seq<CallV>) -> Seq<u64>
    decreases calls.len(),
{
    if calls.len() == 0 {
        Seq::empty()
    } else {
        let before = returned_ids(c, calls.drop_last());
        match calls.last() {
            CallV::Open(_, _) => before.push(after_calls(c, calls.drop_last()).next_id),
            _ => before,
        }
    }
}

/// The spans that the calls that drain return, one result behind the other.
pub open spec fn handed_out(c: CollectorV, calls: Seq<CallV>) -> Seq<RecordV>
    decreases calls.len(),
{
    if calls.len() == 0 {
        Seq::empty()
    } else {
        let before = handed_out(c, calls.drop_last());
        match calls.last() {
            CallV::Drain => before + undrained(after_calls(c, calls.drop_last())),
            _ => before,
        }
    }
}

/// Whether a call takes no spans out.
pub open spec fn keeps_spans(call: CallV) -> bool {
    !(call is Extract)
}

/// Whether a call opens no span.
pub open spec fn opens_none(call: CallV) -> bool {
    !(call is Open)
}

/// Every call keeps the identities growing.
pub proof fn call_keeps_growth(c: CollectorV, call: CallV)
    requires
        ids_grow(c),
        accepts(c, call),
    ensures
        ids_grow(called(c, call)),
{
    match call {
        CallV::Open(source, start_us) => open_keeps_growth(c, source, start_us),
        CallV::Close(end_us) => close_keeps_growth(c, end_us),
        CallV::Stall(stall_us, kind) => stall_keeps_growth(c, stall_us, kind),
        CallV::Drain | CallV::Extract => {},
    }
}

/// Any calls keep the identities growing.
pub proof fn calls_keep_growth(c: CollectorV, calls: Seq<CallV>)
    requires
        ids_grow(c),
        accepts_all(c, calls),
    ensures
        ids_grow(after_calls(c, calls)),
    decreases calls.len(),
{
    if calls.len() > 0 {
        calls_keep_growth(c, calls.drop_last());
        call_keeps_growth(after_calls(c, calls.drop_last()), calls.last());
    }
}

/// Identities count up from zero without gaps: whatever calls stand between, the n-th span that a
/// new collector opens has identity n, so none is used twice.
pub proof fn ids_count_up(c: CollectorV, calls: Seq<CallV>)
    requires
        fresh(c),
        accepts_all(c, calls),
    ensures
        forall|n: int|
            0 <= n < returned_ids(c, calls).len() ==> #[trigger] returned_ids(c, calls)[n] == n,
        after_calls(c, calls).next_id == returned_ids(c, calls).len(),
    decreases calls.len(),
{
    if calls.len() > 0 {
        ids_count_up(c, calls.drop_last());
    }
}

/// Whether identity `n` stands right above `below` in `open`, or nowhere in it.
spec fn above_or_gone(open: Seq<u64>, below: Seq<u64>, n: u64) -> bool {
    ||| below.push(n).is_prefix_of(open)
    ||| !open.contains(n)
}

proof fn call_keeps_above(c: CollectorV, call: CallV, below: Seq<u64>, n: u64)
    requires
        ids_grow(c),
        above_or_gone(c.open, below, n),
        n < c.next_id,
        accepts(c, call),
    ensures
        above_or_gone(called(c, call).open, below, n),
        n < called(c, call).next_id,
{
    let after = called(c, call);
    match call {
        CallV::Open(_, _) => {
            if c.open.contains(n) {
                assert(below.push(n).is_prefix_of(after.open));
            } else {
                assert forall|i: int| 0 <= i < after.open.len() implies after.open[i] != n by {
                    if i < c.open.len() {
                        assert(c.open.contains(c.open[i]));
                    }
                }
            }
        },
        CallV::Close(_) => {
            if c.open.contains(n) {
                if c.open.len() > below.len() + 1 {
                    assert(below.push(n).is_prefix_of(after.open));
                } else {
                    assert(c.open =~= below.push(n));
                    assert(after.open =~= below);
                    assert(c.open.last() == n);
                    assert forall|i: int| 0 <= i < below.len() implies below[i] != n by {
                        assert(c.open[i] < c.open[below.len() as int]);
                    }
                }
            } else {
                assert forall|i: int| 0 <= i < after.open.len() implies after.open[i] != n by {
                    assert(c.open.contains(c.open[i]));
                }
            }
        },
        _ => {},
    }
}

proof fn calls_keep_above(c: CollectorV, calls: Seq<CallV>, below: Seq<u64>, n: u64)
    requires
        ids_grow(c),
        above_or_gone(c.open, below, n),
        n < c.next_id,
        accepts_all(c, calls),
    ensures
        above_or_gone(after_calls(c, calls).open, below, n),
        n < after_calls(c, calls).next_id,
    decreases calls.len(),
{
    if calls.len() > 0 {
        let most = calls.drop_last();
        calls_keep_above(c, most, below, n);
        calls_keep_growth(c, most);
        call_keeps_above(after_calls(c, most), calls.last(), below, n);
    }
}

/// Closing a span restores the open spans that there were just before it was opened, whatever calls
/// stand between, as long as the span is the innermost one again.
pub proof fn close_restores(
    c: CollectorV,
    source: SourceV,
    start_us: u64,
    calls: Seq<CallV>,
    end_us: u64,
)
    requires
        ids_grow(c),
        c.next_id < u64::MAX,
        accepts_all(span_opened(c, source, start_us), calls),
        innermost(after_calls(span_opened(c, source, start_us), calls)) == Some(c.next_id),
    ensures
        ({
            let closed = span_closed(
                after_calls(span_opened(c, source, start_us), calls),
                end_us,
            );
            &&& closed.open == c.open
            &&& innermost(closed) == innermost(c)
        }),
{
    let o = span_opened(c, source, start_us);
    let n = c.next_id;
    open_keeps_growth(c, source, start_us);
    assert(c.open.push(n).is_prefix_of(o.open));
    calls_keep_above(o, calls, c.open, n);
    calls_keep_growth(o, calls);
    let last = after_calls(o, calls);
    assert(last.open.contains(last.open.last()));
    let k = c.open.len() as int;
    assert(last.open[k] == c.open.push(n)[k]);
    assert(last.open.len() == k + 1);
    assert(last.open.drop_last() =~= c.open) by {
        assert forall|i: int| 0 <= i < k implies last.open[i] == c.open[i] by {
            assert(last.open[i] == c.open.push(n)[i]);
        }
    }
}

/// Closing a span gives an end to the span that was the innermost one, if it is still held, and
/// leaves all others as they were.
pub proof fn close_ends_one(c: CollectorV, end_us: u64)
    requires
        ids_grow(c),
        innermost(c) is Some,
    ensures
        span_closed(c, end_us).spans.len() == c.spans.len(),
        forall|i: int|
            0 <= i < c.spans.len() ==> #[trigger] span_closed(c, end_us).spans[i] == (if Some(
                c.spans[i].id,
            ) == innermost(c) {
                RecordV { end_us, ..c.spans[i] }
            } else {
                c.spans[i]
            }),
{
    let id = c.open.last();
    place_bounds(c.spans, id);
    match record_place(c.spans, id) {
        Some(k) => {
            assert forall|i: int| 0 <= i < c.spans.len() && i != k implies (
            #[trigger] c.spans[i]).id != id by {
                if i < k {
                    assert(c.spans[i].id < c.spans[k].id);
                } else {
                    assert(c.spans[k].id < c.spans[i].id);
                }
            }
        },
        None => {},
    }
}

/// While no spans are taken out, a collector that was new holds every span that was opened, in the
/// order of their identities, and has handed out a part of them from the front.
spec fn all_held(c: CollectorV, given: Seq<RecordV>) -> bool {
    &&& c.spans.len() == c.next_id
    &&& forall|i: int| 0 <= i < c.spans.len() ==> (#[trigger] c.spans[i]).id == i
    &&& given.len() == c.drained
    &&& c.drained <= c.spans.len()
    &&& forall|i: int| 0 <= i < given.len() ==> (#[trigger] given[i]).id == i
}

proof fn calls_keep_all_held(c: CollectorV, calls: Seq<CallV>)
    requires
        fresh(c),
        accepts_all(c, calls),
        forall|i: int| 0 <= i < calls.len() ==> keeps_spans(#[trigger] calls[i]),
    ensures
        all_held(after_calls(c, calls), handed_out(c, calls)),
    decreases calls.len(),
{
    if calls.len() > 0 {
        let most = calls.drop_last();
        assert forall|i: int| 0 <= i < most.len() implies keeps_spans(#[trigger] most[i]) by {
            assert(keeps_spans(calls[i]));
        }
        calls_keep_all_held(c, most);
        let before = after_calls(c, most);
        assert(keeps_spans(calls[calls.len() - 1]));
        if before.open.len() > 0 {
            place_bounds(before.spans, before.open.last());
        }
    }
}

/// While no spans are taken out, the results of draining a collector that was new, put one behind
/// the other, hold each span that was opened before the last draining exactly once, in the order of
/// their identities.
pub proof fn drains_hand_out_each_once(c: CollectorV, calls: Seq<CallV>)
    requires
        fresh(c),
        accepts_all(c, calls.push(CallV::Drain)),
        forall|i: int| 0 <= i < calls.len() ==> keeps_spans(#[trigger] calls[i]),
    ensures
        handed_out(c, calls.push(CallV::Drain)).len() == returned_ids(c, calls).len(),
        forall|n: int|
            0 <= n < returned_ids(c, calls).len() ==> (#[trigger] handed_out(
                c,
                calls.push(CallV::Drain),
            )[n]).id == returned_ids(c, calls)[n],
{
    let all = calls.push(CallV::Drain);
    assert(all.drop_last() =~= calls);
    assert forall|i: int| 0 <= i < all.len() implies keeps_spans(#[trigger] all[i]) by {
        if i < calls.len() {
            assert(keeps_spans(calls[i]));
        }
    }
    calls_keep_all_held(c, all);
    ids_count_up(c, calls);
}

/// Draining leaves the spans as they are, and a second draining, with no span opened in between,
/// hands out none.
pub proof fn drain_again_is_empty(c: CollectorV, calls: Seq<CallV>)
    requires
        accepts_all(spans_drained(c), calls),
        forall|i: int| 0 <= i < calls.len() ==> opens_none(#[trigger] calls[i]),
    ensures
        spans_drained(c).spans == c.spans,
        undrained(after_calls(spans_drained(c), calls)) == Seq::<RecordV>::empty(),
{
    none_left(spans_drained(c), calls);
    let after = after_calls(spans_drained(c), calls);
    assert(undrained(after) =~= Seq::<RecordV>::empty());
}

proof fn none_left(c: CollectorV, calls: Seq<CallV>)
    requires
        c.drained == c.spans.len(),
        accepts_all(c, calls),
        forall|i: int| 0 <= i < calls.len() ==> opens_none(#[trigger] calls[i]),
    ensures
        after_calls(c, calls).drained == after_calls(c, calls).spans.len(),
    decreases calls.len(),
{
    if calls.len() > 0 {
        let most = calls.drop_last();
        assert forall|i: int| 0 <= i < most.len() implies opens_none(#[trigger] most[i]) by {
            assert(opens_none(calls[i]));
        }
        none_left(c, most);
        let before = after_calls(c, most);
        assert(opens_none(calls[calls.len() - 1]));
        if before.open.len() > 0 {
            place_bounds(before.spans, before.open.last());
        }
    }
}

} // verus!
