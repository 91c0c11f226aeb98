//! Profiling: spans of evaluation with their timing, and their output.
use crate::ast::clone_opt_string;
use crate::header::entry_put;
use crate::lexer::decimal_is_digits;
use crate::model::Text;
use crate::scan::{closing_quotes, digit, found_at, quotes_at, FoundV, KindV, LexemeV};
use crate::text::{chars_of, decimal, decimal_text, int_text, join3, signed_text};
use crate::thunk::{
    bare_thunk, dict_entries, dict_insert, make_seq_cons, make_seq_nil, new_dict, seq_nil,
    seq_payload, EvalContext, ThunkId, ThunkV, Value, ValueV,
};
use indexmap::IndexMap;
use std::time::{Duration, Instant};
use vstd::prelude::*;

verus! {

/// A span: one evaluation, with its timing and what it belongs to.
#[derive(Debug, PartialEq)]
pub struct SpanRecord {
    /// The identity of the span; identities grow from zero.
    pub id: u64,
    /// The span that forced the evaluation.
    pub materialize_parent: Option<u64>,
    /// The span that was open when what is evaluated was created.
    pub create_parent: Option<u64>,
    /// When what is evaluated was created, in microseconds.
    pub create_time_us: u64,
    pub source_file: Option<String>,
    /// A line and a column.
    pub source_start: Option<(usize, usize)>,
    /// A line and a column.
    pub source_end: Option<(usize, usize)>,
    /// The start of the source text.
    pub source_text: Option<String>,
    pub builtin_name: Option<String>,
    /// The builtin that called what is evaluated.
    pub origin_builtin: Option<String>,
    /// The start of the evaluation, in microseconds from the baseline.
    pub start_us: u64,
    /// The end of the evaluation, in microseconds from the baseline; zero while it runs.
    pub end_us: u64,
    /// How long the evaluation was blocked, in microseconds.
    pub stall_us: u64,
    /// What the evaluation was blocked by first.
    pub stall_kind: Option<String>,
}

pub struct RecordV {
    pub id: u64,
    pub materialize_parent: Option<u64>,
    pub create_parent: Option<u64>,
    pub create_time_us: u64,
    pub source_file: Option<Text>,
    pub source_start: Option<(usize, usize)>,
    pub source_end: Option<(usize, usize)>,
    pub source_text: Option<Text>,
    pub builtin_name: Option<Text>,
    pub origin_builtin: Option<Text>,
    pub start_us: u64,
    pub end_us: u64,
    pub stall_us: u64,
    pub stall_kind: Option<Text>,
}

impl DeepView for SpanRecord {
    type V = RecordV;

    open spec fn deep_view(&self) -> RecordV {
        RecordV {
            id: self.id,
            materialize_parent: self.materialize_parent,
            create_parent: self.create_parent,
            create_time_us: self.create_time_us,
            source_file: self.source_file.deep_view(),
            source_start: self.source_start,
            source_end: self.source_end,
            source_text: self.source_text.deep_view(),
            builtin_name: self.builtin_name.deep_view(),
            origin_builtin: self.origin_builtin.deep_view(),
            start_us: self.start_us,
            end_us: self.end_us,
            stall_us: self.stall_us,
            stall_kind: self.stall_kind.deep_view(),
        }
    }
}

/// A character inside a string literal.
pub open spec fn escaped_char(c: char) -> Text {
    if c == '"' {
        "\\\""@
    } else if c == '\\' {
        "\\\\"@
    } else if c == '\n' {
        "\\n"@
    } else if c == '\r' {
        "\\r"@
    } else if c == '\t' {
        "\\t"@
    } else if (c as u32) < 0x20 {
        seq!['\u{FFFD}']
    } else {
        seq![c]
    }
}

/// A text inside a string literal.
pub open spec fn escaped(s: Text) -> Text
    decreases s.len(),
{
    if s.len() == 0 {
        Seq::empty()
    } else {
        escaped(s.drop_last()) + escaped_char(s.last())
    }
}

/// A text as a string literal.
pub open spec fn literal_text(s: Text) -> Text {
    "\""@ + escaped(s) + "\""@
}

/// An optional text as a string literal; `[]` where it is absent.
pub open spec fn optional_text(s: Option<Text>) -> Text {
    match s {
        Some(t) => literal_text(t),
        None => "[]"@,
    }
}

/// An optional number; `[]` where it is absent.
pub open spec fn optional_number(n: Option<u64>) -> Text {
    match n {
        Some(v) => decimal(v as nat),
        None => "[]"@,
    }
}

/// An unsigned number read as a signed one of the same width.
pub open spec fn signed(n: int) -> int {
    if n <= i64::MAX {
        n
    } else {
        n - 0x1_0000_0000_0000_0000
    }
}

/// A line and a column in one number.
pub open spec fn packed(place: (usize, usize)) -> int {
    signed(place.0 * 1000000 + place.1)
}

/// An optional line and column in one number; `[]` where they are absent.
pub open spec fn optional_place(place: Option<(usize, usize)>) -> Text {
    match place {
        Some(p) => int_text(packed(p)),
        None => "[]"@,
    }
}

/// Whether a line and a column fit one number.
pub open spec fn packable(place: Option<(usize, usize)>) -> bool {
    match place {
        Some((line, col)) => line * 1000000 + col <= usize::MAX,
        None => true,
    }
}

/// Whether the places of a record fit one number each.
pub open spec fn writable(r: RecordV) -> bool {
    packable(r.source_start) && packable(r.source_end)
}

/// Whether the places of all records fit one number each.
pub open spec fn all_writable(rs: Seq<RecordV>) -> bool {
    forall|i: int| 0 <= i < rs.len() ==> writable(#[trigger] rs[i])
}

/// A record as a dict on one line.
pub open spec fn record_line(r: RecordV) -> Text {
    "[id: "@ + decimal(r.id as nat) + "  materialize-parent: "@ + optional_number(
        r.materialize_parent,
    ) + "  create-parent: "@ + optional_number(r.create_parent) + "  create-time-us: "@ + decimal(
        r.create_time_us as nat,
    ) + "  source-file: "@ + optional_text(r.source_file) + "  source-start: "@ + optional_place(
        r.source_start,
    ) + "  source-end: "@ + optional_place(r.source_end) + "  source-text: "@ + optional_text(
        r.source_text,
    ) + "  builtin: "@ + optional_text(r.builtin_name) + "  origin-builtin: "@ + optional_text(
        r.origin_builtin,
    ) + "  start-us: "@ + decimal(r.start_us as nat) + "  end-us: "@ + decimal(r.end_us as nat)
        + "  stall-us: "@ + decimal(r.stall_us as nat) + "  stall-kind: "@ + optional_text(
        r.stall_kind,
    ) + "]"@
}

/// An empty dict, which stands for an absent value.
pub open spec fn absent() -> ValueV {
    ValueV::Dict(Seq::empty())
}

/// An unsigned number as a value.
pub open spec fn number_value(n: u64) -> ValueV {
    ValueV::Int(signed(n as int) as i64)
}

/// An optional number as a value.
pub open spec fn optional_number_value(n: Option<u64>) -> ValueV {
    match n {
        Some(v) => number_value(v),
        None => absent(),
    }
}

/// An optional line and column as a value.
pub open spec fn optional_place_value(place: Option<(usize, usize)>) -> ValueV {
    match place {
        Some(p) => ValueV::Int(packed(p) as i64),
        None => absent(),
    }
}

/// An optional text as a value.
pub open spec fn optional_text_value(s: Option<Text>) -> ValueV {
    match s {
        Some(t) => ValueV::Str(t),
        None => absent(),
    }
}

/// The fields of a record, in the order of its dict.
pub open spec fn record_fields(r: RecordV) -> Seq<(Text, ValueV)> {
    seq![
        ("id"@, number_value(r.id)),
        ("materialize-parent"@, optional_number_value(r.materialize_parent)),
        ("create-parent"@, optional_number_value(r.create_parent)),
        ("create-time-us"@, number_value(r.create_time_us)),
        ("source-file"@, optional_text_value(r.source_file)),
        ("source-start"@, optional_place_value(r.source_start)),
        ("source-end"@, optional_place_value(r.source_end)),
        ("source-text"@, optional_text_value(r.source_text)),
        ("builtin"@, optional_text_value(r.builtin_name)),
        ("origin-builtin"@, optional_text_value(r.origin_builtin)),
        ("start-us"@, number_value(r.start_us)),
        ("end-us"@, number_value(r.end_us)),
        ("stall-us"@, number_value(r.stall_us)),
        ("stall-kind"@, optional_text_value(r.stall_kind)),
    ]
}

/// The arena with the values of fields at its end.
pub open spec fn with_fields(arena: Seq<ThunkV>, fields: Seq<(Text, ValueV)>) -> Seq<ThunkV> {
    arena + Seq::new(fields.len(), |i: int| bare_thunk(fields[i].1))
}

/// The entries of a dict whose values stand one after the other in the arena, from place `base` on.
pub open spec fn field_entries(fields: Seq<(Text, ValueV)>, base: int) -> Seq<(Text, int)>
    decreases fields.len(),
{
    if fields.len() == 0 {
        Seq::empty()
    } else {
        entry_put(
            field_entries(fields.drop_last(), base),
            fields.last().0,
            base + fields.len() - 1,
        )
    }
}

/// A record as a dict, with the arena that its values are put into.
pub open spec fn record_value(r: RecordV, arena: Seq<ThunkV>) -> (Seq<ThunkV>, ValueV) {
    (
        with_fields(arena, record_fields(r)),
        ValueV::Dict(field_entries(record_fields(r), arena.len() as int)),
    )
}

/// A record in front of a sequence.
pub open spec fn record_cons(r: RecordV, arena: Seq<ThunkV>, tail: ValueV) -> (
    Seq<ThunkV>,
    ValueV,
) {
    let (a, dict) = record_value(r, arena);
    let head_at = a.len() as int;
    let tail_at = head_at + 1;
    let all = a.push(bare_thunk(dict)).push(bare_thunk(tail));
    (
        all.push(bare_thunk(seq_payload(head_at, tail_at))),
        ValueV::Variant { tag: "Seq.Cons"@, payload: Some(all.len() as int) },
    )
}

/// Records as a sequence of dicts, with the arena that the values are put into, from the last
/// record to the first.
pub open spec fn records_value(rs: Seq<RecordV>, arena: Seq<ThunkV>) -> (Seq<ThunkV>, ValueV)
    decreases rs.len(),
{
    if rs.len() == 0 {
        (arena, seq_nil())
    } else {
        let (a, tail) = records_value(rs.drop_first(), arena);
        record_cons(rs[0], a, tail)
    }
}

fn push_escaped(out: &mut String, c: char)
    ensures
        final(out)@ == old(out)@ + escaped_char(c),
{
    match c {
        '"' => out.append("\\\""),
        '\\' => out.append("\\\\"),
        '\n' => out.append("\\n"),
        '\r' => out.append("\\r"),
        '\t' => out.append("\\t"),
        _ => {
            let kept: char = if (c as u32) < 0x20 {
                '\u{FFFD}'
            } else {
                c
            };
            let ghost before = out@;
            out.push(kept);
            assert(out@ =~= before + seq![kept]);
        },
    }
}

/// A text as a string literal.
pub fn format_tinct_string(s: &str) -> (r: String)
    ensures
        r@ == literal_text(s@),
{
    let chars: Vec<char> = chars_of(s);
    let mut body: String = String::new();
    let mut i: usize = 0;
    while i < chars.len()
        invariant
            i <= chars@.len(),
            chars@ == s@,
            body@ == escaped(s@.take(i as int)),
        decreases chars@.len() - i,
    {
        assert(s@.take(i + 1).drop_last() =~= s@.take(i as int));
        push_escaped(&mut body, chars[i]);
        i = i + 1;
    }
    assert(s@.take(i as int) =~= s@);
    join3("\"", body.as_str(), "\"")
}

fn write_text(s: &Option<String>) -> (r: String)
    ensures
        r@ == optional_text(s.deep_view()),
{
    match s {
        Some(t) => format_tinct_string(t.as_str()),
        None => "[]".to_owned(),
    }
}

fn write_number(n: Option<u64>) -> (r: String)
    ensures
        r@ == optional_number(n),
{
    match n {
        Some(v) => decimal_text(v),
        None => "[]".to_owned(),
    }
}

fn to_signed(n: u64) -> (r: i64)
    ensures
        r == signed(n as int),
{
    if n <= 0x7fff_ffff_ffff_ffff {
        n as i64
    } else {
        -((0xffff_ffff_ffff_ffff - n) as i64) - 1
    }
}

fn pack(line: usize, col: usize) -> (r: i64)
    requires
        packable(Some((line, col))),
    ensures
        r == packed((line, col)),
{
    to_signed((line * 1000000 + col) as u64)
}

fn write_place(place: Option<(usize, usize)>) -> (r: String)
    requires
        packable(place),
    ensures
        r@ == optional_place(place),
{
    match place {
        Some((line, col)) => signed_text(pack(line, col)),
        None => "[]".to_owned(),
    }
}

fn place_value(place: Option<(usize, usize)>) -> (v: Value)
    requires
        packable(place),
    ensures
        v.deep_view() == optional_place_value(place),
{
    match place {
        Some((line, col)) => Value::Int(pack(line, col)),
        None => Value::Dict(new_dict()),
    }
}

fn text_value(s: &Option<String>) -> (v: Value)
    ensures
        v.deep_view() == optional_text_value(s.deep_view()),
{
    match s {
        Some(t) => Value::Str(t.clone()),
        None => Value::Dict(new_dict()),
    }
}

fn id_value(n: Option<u64>) -> (v: Value)
    ensures
        v.deep_view() == optional_number_value(n),
{
    match n {
        Some(v) => Value::Int(to_signed(v)),
        None => Value::Dict(new_dict()),
    }
}

/// A dict under construction: its values go into the arena one after the other.
struct DictBuilder {
    dict: IndexMap<String, ThunkId>,
}

impl DictBuilder {
    /// Adds a field. `fields` are those added so far, and `base` is the size of the arena before
    /// the first of them.
    fn field(
        &mut self,
        key: &str,
        value: Value,
        ctx: &mut EvalContext,
        Ghost(fields): Ghost<Seq<(Text, ValueV)>>,
        Ghost(arena): Ghost<Seq<ThunkV>>,
    )
        requires
            old(ctx).deep_view() == with_fields(arena, fields),
            dict_entries(old(self).dict) == field_entries(fields, arena.len() as int),
        ensures
            final(ctx).deep_view() == with_fields(arena, fields.push((key@, value.deep_view()))),
            dict_entries(final(self).dict) == field_entries(
                fields.push((key@, value.deep_view())),
                arena.len() as int,
            ),
    {
        let ghost all = fields.push((key@, value.deep_view()));
        let id: ThunkId = ctx.alloc_value(value);
        dict_insert(&mut self.dict, key.to_owned(), id);
        assert(all.drop_last() =~= fields);
        assert(ctx.deep_view() =~= with_fields(arena, all));
    }
}

impl SpanRecord {
    /// The record as a dict on one line.
    pub fn to_tinct_line(&self) -> (r: String)
        requires
            writable(self.deep_view()),
        ensures
            r@ == record_line(self.deep_view()),
    {
        let mut out: String = "[id: ".to_owned();
        out.append(decimal_text(self.id).as_str());
        out.append("  materialize-parent: ");
        out.append(write_number(self.materialize_parent).as_str());
        out.append("  create-parent: ");
        out.append(write_number(self.create_parent).as_str());
        out.append("  create-time-us: ");
        out.append(decimal_text(self.create_time_us).as_str());
        out.append("  source-file: ");
        out.append(write_text(&self.source_file).as_str());
        out.append("  source-start: ");
        out.append(write_place(self.source_start).as_str());
        out.append("  source-end: ");
        out.append(write_place(self.source_end).as_str());
        out.append("  source-text: ");
        out.append(write_text(&self.source_text).as_str());
        out.append("  builtin: ");
        out.append(write_text(&self.builtin_name).as_str());
        out.append("  origin-builtin: ");
        out.append(write_text(&self.origin_builtin).as_str());
        out.append("  start-us: ");
        out.append(decimal_text(self.start_us).as_str());
        out.append("  end-us: ");
        out.append(decimal_text(self.end_us).as_str());
        out.append("  stall-us: ");
        out.append(decimal_text(self.stall_us).as_str());
        out.append("  stall-kind: ");
        out.append(write_text(&self.stall_kind).as_str());
        out.append("]");
        out
    }

    /// The record as a dict; its values go into the arena.
    pub fn to_value(&self, ctx: &mut EvalContext) -> (v: Value)
        requires
            writable(self.deep_view()),
        ensures
            (final(ctx).deep_view(), v.deep_view()) == record_value(
                self.deep_view(),
                old(ctx).deep_view(),
            ),
    {
        let ghost r = self.deep_view();
        let ghost all = record_fields(r);
        let ghost arena = ctx.deep_view();
        let mut b: DictBuilder = DictBuilder { dict: new_dict() };
        assert(all.take(0) =~= Seq::empty());
        assert(with_fields(arena, all.take(0)) =~= arena);
        b.field("id", Value::Int(to_signed(self.id)), ctx, Ghost(all.take(0)), Ghost(arena));
        assert(all.take(0).push(all[0]) =~= all.take(1));
        b.field(
            "materialize-parent",
            id_value(self.materialize_parent),
            ctx,
            Ghost(all.take(1)),
            Ghost(arena),
        );
        assert(all.take(1).push(all[1]) =~= all.take(2));
        b.field(
            "create-parent",
            id_value(self.create_parent),
            ctx,
            Ghost(all.take(2)),
            Ghost(arena),
        );
        assert(all.take(2).push(all[2]) =~= all.take(3));
        b.field(
            "create-time-us",
            Value::Int(to_signed(self.create_time_us)),
            ctx,
            Ghost(all.take(3)),
            Ghost(arena),
        );
        assert(all.take(3).push(all[3]) =~= all.take(4));
        b.field(
            "source-file",
            text_value(&self.source_file),
            ctx,
            Ghost(all.take(4)),
            Ghost(arena),
        );
        assert(all.take(4).push(all[4]) =~= all.take(5));
        b.field(
            "source-start",
            place_value(self.source_start),
            ctx,
            Ghost(all.take(5)),
            Ghost(arena),
        );
        assert(all.take(5).push(all[5]) =~= all.take(6));
        b.field(
            "source-end",
            place_value(self.source_end),
            ctx,
            Ghost(all.take(6)),
            Ghost(arena),
        );
        assert(all.take(6).push(all[6]) =~= all.take(7));
        b.field(
            "source-text",
            text_value(&self.source_text),
            ctx,
            Ghost(all.take(7)),
            Ghost(arena),
        );
        assert(all.take(7).push(all[7]) =~= all.take(8));
        b.field("builtin", text_value(&self.builtin_name), ctx, Ghost(all.take(8)), Ghost(arena));
        assert(all.take(8).push(all[8]) =~= all.take(9));
        b.field(
            "origin-builtin",
            text_value(&self.origin_builtin),
            ctx,
            Ghost(all.take(9)),
            Ghost(arena),
        );
        assert(all.take(9).push(all[9]) =~= all.take(10));
        b.field(
            "start-us",
            Value::Int(to_signed(self.start_us)),
            ctx,
            Ghost(all.take(10)),
            Ghost(arena),
        );
        assert(all.take(10).push(all[10]) =~= all.take(11));
        b.field(
            "end-us",
            Value::Int(to_signed(self.end_us)),
            ctx,
            Ghost(all.take(11)),
            Ghost(arena),
        );
        assert(all.take(11).push(all[11]) =~= all.take(12));
        b.field(
            "stall-us",
            Value::Int(to_signed(self.stall_us)),
            ctx,
            Ghost(all.take(12)),
            Ghost(arena),
        );
        assert(all.take(12).push(all[12]) =~= all.take(13));
        b.field("stall-kind", text_value(&self.stall_kind), ctx, Ghost(all.take(13)), Ghost(arena));
        assert(all.take(13).push(all[13]) =~= all);
        Value::Dict(b.dict)
    }
}

/// The state of a collector.
pub struct CollectorV {
    /// The spans, in the order in which they were opened.
    pub spans: Seq<RecordV>,
    /// The spans that are open, the innermost last.
    pub open: Seq<u64>,
    /// The identity of the next span.
    pub next_id: u64,
    /// How many of the spans were handed out already.
    pub drained: nat,
    /// The moment from which times are measured.
    pub baseline: Instant,
}

/// Whether a collector is new: it has no spans, and its first span gets identity zero.
pub open spec fn fresh(c: CollectorV) -> bool {
    &&& c.spans == Seq::<RecordV>::empty()
    &&& c.open == Seq::<u64>::empty()
    &&& c.next_id == 0
    &&& c.drained == 0
}

/// The innermost open span.
pub open spec fn innermost(c: CollectorV) -> Option<u64> {
    if c.open.len() > 0 {
        Some(c.open.last())
    } else {
        None
    }
}

/// What is known of a span when it is opened.
pub struct SourceV {
    pub source_file: Option<Text>,
    pub source_start: Option<(usize, usize)>,
    pub source_end: Option<(usize, usize)>,
    pub source_text: Option<Text>,
    pub builtin_name: Option<Text>,
    pub origin_builtin: Option<Text>,
    pub create_parent: Option<u64>,
    pub create_time_us: u64,
}

/// The record of a span that is opened at a time.
pub open spec fn new_record(c: CollectorV, source: SourceV, start_us: u64) -> RecordV {
    RecordV {
        id: c.next_id,
        materialize_parent: innermost(c),
        create_parent: source.create_parent,
        create_time_us: source.create_time_us,
        source_file: source.source_file,
        source_start: source.source_start,
        source_end: source.source_end,
        source_text: source.source_text,
        builtin_name: source.builtin_name,
        origin_builtin: source.origin_builtin,
        start_us,
        end_us: 0,
        stall_us: 0,
        stall_kind: None,
    }
}

/// The collector after a span is opened at a time.
pub open spec fn span_opened(c: CollectorV, source: SourceV, start_us: u64) -> CollectorV {
    CollectorV {
        spans: c.spans.push(new_record(c, source, start_us)),
        open: c.open.push(c.next_id),
        next_id: (c.next_id + 1) as u64,
        ..c
    }
}

/// The place of the first record with an identity, where there is one.
pub open spec fn record_place(spans: Seq<RecordV>, id: u64) -> Option<int>
    decreases spans.len(),
{
    if spans.len() == 0 {
        None
    } else {
        match record_place(spans.drop_last(), id) {
            Some(i) => Some(i),
            None => if spans.last().id == id {
                Some(spans.len() - 1)
            } else {
                None
            },
        }
    }
}

/// The collector after its innermost span is closed at a time.
pub open spec fn span_closed(c: CollectorV, end_us: u64) -> CollectorV {
    CollectorV {
        spans: match record_place(c.spans, c.open.last()) {
            Some(i) => c.spans.update(i, RecordV { end_us, ..c.spans[i] }),
            None => c.spans,
        },
        open: c.open.drop_last(),
        ..c
    }
}

/// The spans that were not handed out yet.
pub open spec fn undrained(c: CollectorV) -> Seq<RecordV> {
    if c.drained <= c.spans.len() {
        c.spans.skip(c.drained as int)
    } else {
        Seq::empty()
    }
}

/// The collector after its spans are handed out.
pub open spec fn spans_drained(c: CollectorV) -> CollectorV {
    CollectorV { drained: c.spans.len(), ..c }
}

/// The collector after its spans are taken out.
pub open spec fn spans_extracted(c: CollectorV) -> CollectorV {
    CollectorV { spans: Seq::empty(), drained: 0, ..c }
}

/// The record that a stall belongs to, where there is one.
pub open spec fn stalled_place(c: CollectorV) -> Option<int> {
    match innermost(c) {
        Some(id) => record_place(c.spans, id),
        None => None,
    }
}

/// The collector after a stall of the innermost span. The first kind stays.
pub open spec fn stalled(c: CollectorV, stall_us: u64, kind: Text) -> CollectorV {
    match stalled_place(c) {
        Some(i) => CollectorV {
            spans: c.spans.update(
                i,
                RecordV {
                    stall_us: (c.spans[i].stall_us + stall_us) as u64,
                    stall_kind: match c.spans[i].stall_kind {
                        Some(k) => Some(k),
                        None => Some(kind),
                    },
                    ..c.spans[i]
                },
            ),
            ..c
        },
        None => c,
    }
}

/// Whether the identities grow: those of the spans, and those of the open spans.
pub open spec fn ids_grow(c: CollectorV) -> bool {
    &&& forall|i: int, j: int|
        0 <= i < j < c.spans.len() ==> (#[trigger] c.spans[i]).id < (#[trigger] c.spans[j]).id
    &&& forall|i: int| 0 <= i < c.spans.len() ==> (#[trigger] c.spans[i]).id < c.next_id
    &&& forall|i: int, j: int|
        0 <= i < j < c.open.len() ==> (#[trigger] c.open[i]) < (#[trigger] c.open[j])
    &&& forall|i: int| 0 <= i < c.open.len() ==> (#[trigger] c.open[i]) < c.next_id
}

/// Opening a span keeps the identities growing.
pub proof fn open_keeps_growth(c: CollectorV, source: SourceV, start_us: u64)
    requires
        ids_grow(c),
        c.next_id < u64::MAX,
    ensures
        ids_grow(span_opened(c, source, start_us)),
{
}

/// Closing a span keeps the identities growing.
pub proof fn close_keeps_growth(c: CollectorV, end_us: u64)
    requires
        ids_grow(c),
        c.open.len() > 0,
    ensures
        ids_grow(span_closed(c, end_us)),
{
    place_bounds(c.spans, c.open.last());
}

/// A stall keeps the identities growing.
pub proof fn stall_keeps_growth(c: CollectorV, stall_us: u64, kind: Text)
    requires
        ids_grow(c),
    ensures
        ids_grow(stalled(c, stall_us, kind)),
{
    if c.open.len() > 0 {
        place_bounds(c.spans, c.open.last());
    }
}

/// Closing a span right after it is opened restores the open spans, leaves the spans before it as
/// they were, and gives it its end.
pub proof fn close_undoes_open(c: CollectorV, source: SourceV, start_us: u64, end_us: u64)
    requires
        ids_grow(c),
        c.next_id < u64::MAX,
    ensures
        ({
            let closed = span_closed(span_opened(c, source, start_us), end_us);
            &&& closed.open == c.open
            &&& closed.spans == c.spans.push(
                (RecordV { end_us, ..new_record(c, source, start_us) }),
            )
        }),
{
    let o = span_opened(c, source, start_us);
    place_bounds(o.spans, c.next_id);
    assert(o.spans.last().id == c.next_id);
    let closed = span_closed(o, end_us);
    assert(closed.open =~= c.open);
    assert(closed.spans =~= c.spans.push(
        (RecordV { end_us, ..new_record(c, source, start_us) }),
    ));
}

/// A span that is opened inside another has that one as its parent.
pub proof fn nested_span_parent(
    c: CollectorV,
    outer: SourceV,
    outer_us: u64,
    inner: SourceV,
    inner_us: u64,
)
    requires
        c.next_id < u64::MAX - 1,
    ensures
        ({
            let nested = span_opened(span_opened(c, outer, outer_us), inner, inner_us);
            nested.spans.last().materialize_parent == Some(c.next_id)
        }),
{
}

/// Opening a span adds one record behind the others. It holds what the call was given, each under
/// its own name, stands inside the innermost span, and has neither an end nor a stall yet.
pub proof fn opened_record_holds_the_call(c: CollectorV, source: SourceV, start_us: u64)
    requires
        c.next_id < u64::MAX,
    ensures
        ({
            let after = span_opened(c, source, start_us);
            let last = after.spans.last();
            &&& after.spans.len() == c.spans.len() + 1
            &&& after.spans.drop_last() == c.spans
            &&& last.source_file == source.source_file
            &&& last.source_start == source.source_start
            &&& last.source_end == source.source_end
            &&& last.source_text == source.source_text
            &&& last.builtin_name == source.builtin_name
            &&& last.origin_builtin == source.origin_builtin
            &&& last.create_parent == source.create_parent
            &&& last.create_time_us == source.create_time_us
            &&& last.start_us == start_us
            &&& last.end_us == 0
            &&& last.stall_us == 0
            &&& last.stall_kind is None
            &&& c.open.len() > 0 ==> last.materialize_parent == Some(c.open.last())
            &&& c.open.len() == 0 ==> last.materialize_parent is None
            &&& last.id == c.next_id
            &&& after.open == c.open.push(last.id)
            &&& after.next_id == c.next_id + 1
            &&& after.drained == c.drained
            &&& after.baseline == c.baseline
        }),
{
    assert(span_opened(c, source, start_us).spans.drop_last() =~= c.spans);
}

/// Closing changes the end of the innermost span, and of no other span anything; what is left open
/// is what was open around it.
pub proof fn closing_ends_the_innermost(c: CollectorV, end_us: u64)
    requires
        ids_grow(c),
        c.open.len() > 0,
    ensures
        ({
            let after = span_closed(c, end_us);
            &&& after.spans.len() == c.spans.len()
            &&& after.open == c.open.drop_last()
            &&& after.next_id == c.next_id
            &&& after.drained == c.drained
            &&& after.baseline == c.baseline
            &&& forall|i: int|
                0 <= i < c.spans.len() ==> {
                    let r = c.spans[i];
                    let a = #[trigger] after.spans[i];
                    &&& a.end_us == (if r.id == c.open.last() {
                        end_us
                    } else {
                        r.end_us
                    })
                    &&& a.id == r.id
                    &&& a.materialize_parent == r.materialize_parent
                    &&& a.create_parent == r.create_parent
                    &&& a.create_time_us == r.create_time_us
                    &&& a.source_file == r.source_file
                    &&& a.source_start == r.source_start
                    &&& a.source_end == r.source_end
                    &&& a.source_text == r.source_text
                    &&& a.builtin_name == r.builtin_name
                    &&& a.origin_builtin == r.origin_builtin
                    &&& a.start_us == r.start_us
                    &&& a.stall_us == r.stall_us
                    &&& a.stall_kind == r.stall_kind
                }
        }),
{
    place_is_found(c.spans, c.open.last());
}

/// A stall changes the stall of the innermost span, and of no other span anything: the times add
/// up, and the kind is the one that came first.
pub proof fn stall_is_the_innermosts(c: CollectorV, stall_us: u64, kind: Text)
    requires
        ids_grow(c),
        stalled_place(c) matches Some(i) ==> c.spans[i].stall_us + stall_us <= u64::MAX,
    ensures
        ({
            let after = stalled(c, stall_us, kind);
            &&& after.spans.len() == c.spans.len()
            &&& after.open == c.open
            &&& after.next_id == c.next_id
            &&& after.drained == c.drained
            &&& after.baseline == c.baseline
            &&& forall|i: int|
                0 <= i < c.spans.len() ==> {
                    let r = c.spans[i];
                    let a = #[trigger] after.spans[i];
                    let inner = c.open.len() > 0 && r.id == c.open.last();
                    &&& a.stall_us == r.stall_us + (if inner {
                        stall_us as int
                    } else {
                        0
                    })
                    &&& inner && r.stall_kind is None ==> a.stall_kind == Some(kind)
                    &&& !inner || r.stall_kind is Some ==> a.stall_kind == r.stall_kind
                    &&& a.id == r.id
                    &&& a.materialize_parent == r.materialize_parent
                    &&& a.create_parent == r.create_parent
                    &&& a.create_time_us == r.create_time_us
                    &&& a.source_file == r.source_file
                    &&& a.source_start == r.source_start
                    &&& a.source_end == r.source_end
                    &&& a.source_text == r.source_text
                    &&& a.builtin_name == r.builtin_name
                    &&& a.origin_builtin == r.origin_builtin
                    &&& a.start_us == r.start_us
                    &&& a.end_us == r.end_us
                }
        }),
{
    if c.open.len() > 0 {
        place_is_found(c.spans, c.open.last());
    }
}

/// The place of an identity is where it stands; there is none where it does not occur.
proof fn place_is_found(spans: Seq<RecordV>, id: u64)
    ensures
        match record_place(spans, id) {
            Some(i) => 0 <= i < spans.len() && spans[i].id == id,
            None => forall|i: int| 0 <= i < spans.len() ==> (#[trigger] spans[i]).id != id,
        },
    decreases spans.len(),
{
    if spans.len() > 0 {
        place_is_found(spans.drop_last(), id);
        assert forall|i: int| 0 <= i < spans.len() && record_place(spans, id) is None implies (
        #[trigger] spans[i]).id != id by {
            if i < spans.len() - 1 {
                assert(spans.drop_last()[i] == spans[i]);
            }
        }
    }
}

/// Handing out and taking out: what is handed out are the records from the first that was not
/// handed out before, in their order; after that nothing is left to hand out. Taking out gives all
/// of them, and leaves none; the open spans and the count of identities stay.
pub proof fn handing_out_skips_what_was_given(c: CollectorV)
    ensures
        c.drained <= c.spans.len() ==> undrained(c).len() == c.spans.len() - c.drained && (forall|
            i: int,
        |
            0 <= i < undrained(c).len() ==> #[trigger] undrained(c)[i] == c.spans[c.drained + i]),
        undrained(spans_drained(c)).len() == 0,
        spans_drained(c).spans == c.spans,
        spans_drained(c).open == c.open,
        spans_drained(c).next_id == c.next_id,
        spans_drained(c).baseline == c.baseline,
        spans_extracted(c).spans.len() == 0,
        spans_extracted(c).open == c.open,
        spans_extracted(c).next_id == c.next_id,
        spans_extracted(c).baseline == c.baseline,
        forall|source: SourceV, start_us: u64|
            undrained(#[trigger] span_opened(spans_extracted(c), source, start_us)).len() == 1,
        forall|source: SourceV, start_us: u64|
            undrained(#[trigger] span_opened(spans_drained(c), source, start_us)).len() == 1,
{
}

/// The kind of the first stall stays, and the stalls add up.
pub proof fn stalls_add_up(c: CollectorV, first_us: u64, first: Text, second_us: u64, second: Text)
    requires
        stalled_place(c) is Some,
        c.spans[stalled_place(c)->0].stall_us + first_us + second_us <= u64::MAX,
    ensures
        ({
            let i = stalled_place(c)->0;
            let after = stalled(stalled(c, first_us, first), second_us, second);
            &&& after.spans[i].stall_us == c.spans[i].stall_us + first_us + second_us
            &&& after.spans[i].stall_kind == stalled(c, first_us, first).spans[i].stall_kind
        }),
{
    let id = c.open.last();
    place_bounds(c.spans, id);
    let once = stalled(c, first_us, first);
    same_ids_same_place(c.spans, once.spans, id);
}

proof fn same_ids_same_place(a: Seq<RecordV>, b: Seq<RecordV>, id: u64)
    requires
        a.len() == b.len(),
        forall|i: int| 0 <= i < a.len() ==> (#[trigger] a[i]).id == (#[trigger] b[i]).id,
    ensures
        record_place(a, id) == record_place(b, id),
    decreases a.len(),
{
    if a.len() > 0 {
        assert(forall|i: int| 0 <= i < a.len() - 1 ==> a.drop_last()[i] == #[trigger] a[i]);
        assert(forall|i: int| 0 <= i < b.len() - 1 ==> b.drop_last()[i] == #[trigger] b[i]);
        assert forall|i: int| 0 <= i < a.drop_last().len() implies (#[trigger] a.drop_last()[i]).id
            == (#[trigger] b.drop_last()[i]).id by {
            assert(a[i].id == b[i].id);
        }
        same_ids_same_place(a.drop_last(), b.drop_last(), id);
    }
}

/// What is handed out next is what was opened since the last time.
pub proof fn drain_hands_out_new(c: CollectorV, source: SourceV, start_us: u64)
    requires
        c.drained == c.spans.len(),
    ensures
        undrained(span_opened(c, source, start_us)) == seq![new_record(c, source, start_us)],
        undrained(c) == Seq::<RecordV>::empty(),
{
    assert(undrained(span_opened(c, source, start_us)) =~= seq![new_record(c, source, start_us)]);
    assert(undrained(c) =~= Seq::<RecordV>::empty());
}

/// Whether a value is the dict of a record, with the values of its fields in the arena.
pub open spec fn holds_record(arena: Seq<ThunkV>, v: ValueV, r: RecordV) -> bool {
    exists|base: int|
        {
            &&& v == ValueV::Dict(#[trigger] field_entries(record_fields(r), base))
            &&& 0 <= base
            &&& base + record_fields(r).len() <= arena.len()
            &&& forall|k: int|
                0 <= k < record_fields(r).len() ==> (#[trigger] arena[base + k]).value
                    == record_fields(r)[k].1
        }
}

/// Whether a value is a sequence of the dicts of records, in their order.
pub open spec fn holds_records(arena: Seq<ThunkV>, v: ValueV, rs: Seq<RecordV>) -> bool
    decreases rs.len(),
{
    if rs.len() == 0 {
        v == seq_nil()
    } else {
        match v {
            ValueV::Variant { tag, payload: Some(p) } => {
                &&& tag == "Seq.Cons"@
                &&& 0 <= p < arena.len()
                &&& match arena[p].value {
                    ValueV::Dict(es) => {
                        &&& es.len() == 2
                        &&& es[0].0 == "head"@
                        &&& es[1].0 == "tail"@
                        &&& 0 <= es[0].1 < arena.len()
                        &&& 0 <= es[1].1 < arena.len()
                        &&& holds_record(arena, arena[es[0].1].value, rs[0])
                        &&& holds_records(arena, arena[es[1].1].value, rs.drop_first())
                    },
                    _ => false,
                }
            },
            _ => false,
        }
    }
}

proof fn more_arena_holds_record(arena: Seq<ThunkV>, more: Seq<ThunkV>, v: ValueV, r: RecordV)
    requires
        holds_record(arena, v, r),
    ensures
        holds_record(arena + more, v, r),
{
    let base = choose|base: int|
        {
            &&& v == ValueV::Dict(#[trigger] field_entries(record_fields(r), base))
            &&& 0 <= base
            &&& base + record_fields(r).len() <= arena.len()
            &&& forall|k: int|
                0 <= k < record_fields(r).len() ==> (#[trigger] arena[base + k]).value
                    == record_fields(r)[k].1
        };
    assert(v == ValueV::Dict(field_entries(record_fields(r), base)));
    assert forall|k: int| 0 <= k < record_fields(r).len() implies (#[trigger] (arena + more)[base
        + k]).value == record_fields(r)[k].1 by {
        assert(arena[base + k] == (arena + more)[base + k]);
    }
}

proof fn more_arena_holds_records(
    arena: Seq<ThunkV>,
    more: Seq<ThunkV>,
    v: ValueV,
    rs: Seq<RecordV>,
)
    requires
        holds_records(arena, v, rs),
    ensures
        holds_records(arena + more, v, rs),
    decreases rs.len(),
{
    if rs.len() > 0 {
        let p = v->payload->0;
        let es = arena[p].value->Dict_0;
        more_arena_holds_record(arena, more, arena[es[0].1].value, rs[0]);
        more_arena_holds_records(arena, more, arena[es[1].1].value, rs.drop_first());
    }
}

/// The sequence of records can be read back: it holds the records, in their order, and what was in
/// the arena stays there.
pub proof fn records_read_back(rs: Seq<RecordV>, arena: Seq<ThunkV>)
    ensures
        holds_records(records_value(rs, arena).0, records_value(rs, arena).1, rs),
        arena.len() <= records_value(rs, arena).0.len(),
        records_value(rs, arena).0.take(arena.len() as int) == arena,
    decreases rs.len(),
{
    if rs.len() == 0 {
        assert(arena.take(arena.len() as int) =~= arena);
    } else {
        records_read_back(rs.drop_first(), arena);
        let (a, tail) = records_value(rs.drop_first(), arena);
        let (after, v) = record_cons(rs[0], a, tail);
        let fields = record_fields(rs[0]);
        let (b, dict) = record_value(rs[0], a);
        let at = b.len() as int;
        let payload = seq_payload(at, at + 1);
        reveal_strlit("head");
        reveal_strlit("tail");
        assert("head"@[0] != "tail"@[0]);
        let first = entry_put(Seq::<(Text, int)>::empty(), "head"@, at);
        assert(first =~= seq![("head"@, at)]);
        assert(crate::header::key_index(first.drop_last(), "tail"@) is None);
        assert(first.last().0 != "tail"@);
        assert(crate::header::key_index(first, "tail"@) is None);
        assert(entry_put(first, "tail"@, at + 1) =~= seq![("head"@, at), ("tail"@, at + 1)]);
        let added = Seq::new(fields.len(), |i: int| bare_thunk(fields[i].1));
        let more = added.push(bare_thunk(dict)).push(bare_thunk(tail)).push(bare_thunk(payload));
        assert(after =~= a + more);
        assert(after.take(arena.len() as int) =~= a.take(arena.len() as int));
        more_arena_holds_records(a, more, tail, rs.drop_first());
        assert(holds_record(after, dict, rs[0])) by {
            assert(dict == ValueV::Dict(field_entries(fields, a.len() as int)));
            assert forall|k: int| 0 <= k < fields.len() implies (#[trigger] after[a.len()
                + k]).value == fields[k].1 by {
                assert(after[a.len() + k] == added[k]);
            }
        }
        assert(after[at].value == dict);
        assert(after[at + 1].value == tail);
        assert(after[at + 2].value == payload);
    }
}

#[verifier::external_type_specification]
#[verifier::external_body]
pub struct ExInstant(Instant);

/// `Instant::now` gives the present moment; nothing is claimed of it.
pub assume_specification[ Instant::now ]() -> (r: Instant);

/// `Instant::elapsed` measures the time since a moment; nothing is claimed of it.
pub assume_specification[ Instant::elapsed ](since: &Instant) -> (r: Duration);

/// `Duration::as_micros` gives a duration in whole microseconds. The durations here are measured,
/// so nothing is claimed of their number.
pub assume_specification[ Duration::as_micros ](d: &Duration) -> (r: u128);

/// The time since a moment in microseconds, cut to its low bits.
fn elapsed_us(since: &Instant) -> (r: u64) {
    let micros: u128 = since.elapsed().as_micros();
    #[verifier::truncate]
    (micros as u64)
}

/// Records spans during evaluation.
#[derive(Debug)]
pub struct ProfilingCollector {
    spans: Vec<SpanRecord>,
    open_stack: Vec<u64>,
    next_id: u64,
    baseline: Instant,
    drain_cursor: usize,
}

impl View for ProfilingCollector {
    type V = CollectorV;

    closed spec fn view(&self) -> CollectorV {
        CollectorV {
            spans: self.spans.deep_view(),
            open: self.open_stack@,
            next_id: self.next_id,
            drained: self.drain_cursor as nat,
            baseline: self.baseline,
        }
    }
}

impl Clone for SpanRecord {
    fn clone(&self) -> (r: SpanRecord)
        ensures
            r.deep_view() == self.deep_view(),
    {
        SpanRecord {
            id: self.id,
            materialize_parent: self.materialize_parent,
            create_parent: self.create_parent,
            create_time_us: self.create_time_us,
            source_file: clone_opt_string(&self.source_file),
            source_start: self.source_start,
            source_end: self.source_end,
            source_text: clone_opt_string(&self.source_text),
            builtin_name: clone_opt_string(&self.builtin_name),
            origin_builtin: clone_opt_string(&self.origin_builtin),
            start_us: self.start_us,
            end_us: self.end_us,
            stall_us: self.stall_us,
            stall_kind: clone_opt_string(&self.stall_kind),
        }
    }
}

fn copy_records(records: &Vec<SpanRecord>, from: usize) -> (r: Vec<SpanRecord>)
    requires
        from <= records@.len(),
    ensures
        r.deep_view() == records.deep_view().skip(from as int),
{
    broadcast use crate::model::group_models;

    let ghost all = records.deep_view().skip(from as int);
    let mut out: Vec<SpanRecord> = Vec::new();
    let mut i: usize = from;
    while i < records.len()
        invariant
            from <= i <= records@.len(),
            all == records.deep_view().skip(from as int),
            out.deep_view() == all.take(i - from),
        decreases records@.len() - i,
    {
        let ghost before = out.deep_view();
        let record: SpanRecord = records[i].clone();
        let ghost rv = record.deep_view();
        assert(rv == all[i - from]);
        out.push(record);
        assert(out.deep_view() == before.push(rv));
        i = i + 1;
        assert(out.deep_view() =~= all.take(i - from));
    }
    assert(out.deep_view() =~= all);
    out
}

fn find_record(records: &Vec<SpanRecord>, id: u64) -> (r: Option<usize>)
    ensures
        match (r, record_place(records.deep_view(), id)) {
            (Some(i), Some(k)) => i == k && i < records@.len(),
            (None, None) => true,
            _ => false,
        },
{
    let ghost all = records.deep_view();
    let mut i: usize = 0;
    while i < records.len()
        invariant
            i <= records@.len(),
            all == records.deep_view(),
            record_place(all.take(i as int), id) is None,
        decreases records@.len() - i,
    {
        assert(all[i as int] == records@[i as int].deep_view());
        assert(all.take(i + 1).drop_last() =~= all.take(i as int));
        assert(all.take(i + 1).last() == all[i as int]);
        if records[i].id == id {
            proof {
                place_in_prefix(all, id, i + 1);
            }
            return Some(i);
        }
        i = i + 1;
    }
    assert(all.take(i as int) =~= all);
    None
}

proof fn place_in_prefix(spans: Seq<RecordV>, id: u64, n: int)
    requires
        0 <= n <= spans.len(),
        record_place(spans.take(n), id) is Some,
    ensures
        record_place(spans, id) == record_place(spans.take(n), id),
    decreases spans.len() - n,
{
    if n < spans.len() {
        assert(spans.take(n + 1).drop_last() =~= spans.take(n));
        place_in_prefix(spans, id, n + 1);
    } else {
        assert(spans.take(n) =~= spans);
    }
}

pub(crate) proof fn place_bounds(spans: Seq<RecordV>, id: u64)
    ensures
        record_place(spans, id) matches Some(i) ==> 0 <= i < spans.len() && spans[i].id == id,
        record_place(spans, id) is None ==> forall|i: int|
            0 <= i < spans.len() ==> (#[trigger] spans[i]).id != id,
    decreases spans.len(),
{
    if spans.len() > 0 {
        place_bounds(spans.drop_last(), id);
        assert(forall|i: int|
            0 <= i < spans.len() - 1 ==> spans.drop_last()[i] == #[trigger] spans[i]);
    }
}

/// The records with the record at place `i` replaced.
fn replace_record(records: &mut Vec<SpanRecord>, i: usize, record: SpanRecord)
    requires
        i < old(records)@.len(),
    ensures
        final(records).deep_view() == old(records).deep_view().update(
            i as int,
            record.deep_view(),
        ),
{
    let ghost all = records.deep_view();
    records.set(i, record);
    assert(records.deep_view() =~= all.update(i as int, record.deep_view()));
}

impl ProfilingCollector {
    /// A collector without spans; times are measured from now on.
    pub fn new() -> (r: ProfilingCollector)
        ensures
            fresh(r@),
    {
        broadcast use crate::model::group_models;

        ProfilingCollector {
            spans: Vec::new(),
            open_stack: Vec::new(),
            next_id: 0,
            baseline: Instant::now(),
            drain_cursor: 0,
        }
    }

    /// Opens a span at the present time and returns its identity.
    pub fn open_span(
        &mut self,
        source_file: Option<String>,
        source_start: Option<(usize, usize)>,
        source_end: Option<(usize, usize)>,
        source_text: Option<String>,
        builtin_name: Option<String>,
        origin_builtin: Option<String>,
        create_parent: Option<u64>,
        create_time_us: u64,
    ) -> (id: u64)
        requires
            old(self)@.next_id < u64::MAX,
        ensures
            id == old(self)@.next_id,
            ({
                let last = final(self)@.spans.last();
                &&& last.source_file == source_file.deep_view()
                &&& last.source_start == source_start
                &&& last.source_end == source_end
                &&& last.source_text == source_text.deep_view()
                &&& last.builtin_name == builtin_name.deep_view()
                &&& last.origin_builtin == origin_builtin.deep_view()
                &&& last.create_parent == create_parent
                &&& last.create_time_us == create_time_us
            }),
            exists|start_us: u64|
                final(self)@ == #[trigger] span_opened(
                    old(self)@,
                    (SourceV {
                        source_file: source_file.deep_view(),
                        source_start,
                        source_end,
                        source_text: source_text.deep_view(),
                        builtin_name: builtin_name.deep_view(),
                        origin_builtin: origin_builtin.deep_view(),
                        create_parent,
                        create_time_us,
                    }),
                    start_us,
                ),
    {
        let start_us: u64 = elapsed_us(&self.baseline);
        self.open_span_at(
            source_file,
            source_start,
            source_end,
            source_text,
            builtin_name,
            origin_builtin,
            create_parent,
            create_time_us,
            start_us,
        )
    }

    /// Opens a span at a time and returns its identity.
    pub fn open_span_at(
        &mut self,
        source_file: Option<String>,
        source_start: Option<(usize, usize)>,
        source_end: Option<(usize, usize)>,
        source_text: Option<String>,
        builtin_name: Option<String>,
        origin_builtin: Option<String>,
        create_parent: Option<u64>,
        create_time_us: u64,
        start_us: u64,
    ) -> (id: u64)
        requires
            old(self)@.next_id < u64::MAX,
        ensures
            id == old(self)@.next_id,
            ({
                let last = final(self)@.spans.last();
                &&& last.source_file == source_file.deep_view()
                &&& last.source_start == source_start
                &&& last.source_end == source_end
                &&& last.source_text == source_text.deep_view()
                &&& last.builtin_name == builtin_name.deep_view()
                &&& last.origin_builtin == origin_builtin.deep_view()
                &&& last.create_parent == create_parent
                &&& last.create_time_us == create_time_us
            }),
            final(self)@.spans.last().start_us == start_us,
            final(self)@ == span_opened(
                old(self)@,
                (SourceV {
                    source_file: source_file.deep_view(),
                    source_start,
                    source_end,
                    source_text: source_text.deep_view(),
                    builtin_name: builtin_name.deep_view(),
                    origin_builtin: origin_builtin.deep_view(),
                    create_parent,
                    create_time_us,
                }),
                start_us,
            ),
    {
        broadcast use crate::model::group_models;

        let id: u64 = self.next_id;
        let materialize_parent: Option<u64> = self.current_span_id();
        self.next_id = id + 1;
        self.spans.push(
            SpanRecord {
                id,
                materialize_parent,
                create_parent,
                create_time_us,
                source_file,
                source_start,
                source_end,
                source_text,
                builtin_name,
                origin_builtin,
                start_us,
                end_us: 0,
                stall_us: 0,
                stall_kind: None,
            },
        );
        self.open_stack.push(id);
        id
    }

    /// Closes the innermost span at the present time.
    pub fn close_span(&mut self, id: u64)
        requires
            innermost(old(self)@) == Some(id),
        ensures
            exists|end_us: u64| final(self)@ == #[trigger] span_closed(old(self)@, end_us),
    {
        let end_us: u64 = elapsed_us(&self.baseline);
        self.close_span_at(id, end_us);
    }

    /// Closes the innermost span at a time.
    pub fn close_span_at(&mut self, id: u64, end_us: u64)
        requires
            innermost(old(self)@) == Some(id),
        ensures
            final(self)@ == span_closed(old(self)@, end_us),
    {
        self.open_stack.pop();
        match find_record(&self.spans, id) {
            Some(i) => {
                let changed: SpanRecord = SpanRecord { end_us, ..self.spans[i].clone() };
                replace_record(&mut self.spans, i, changed);
            },
            None => {},
        }
    }

    /// The innermost open span.
    pub fn current_span_id(&self) -> (r: Option<u64>)
        ensures
            r == innermost(self@),
    {
        let n: usize = self.open_stack.len();
        if n > 0 {
            Some(self.open_stack[n - 1])
        } else {
            None
        }
    }

    /// The moment from which times are measured.
    pub fn baseline_instant(&self) -> (r: Instant)
        ensures
            r == self@.baseline,
    {
        self.baseline
    }

    /// Adds a stall to the innermost span; its first kind stays.
    pub fn record_stall(&mut self, stall_us: u64, stall_kind: &str)
        requires
            stalled_place(old(self)@) matches Some(i) ==> old(self)@.spans[i].stall_us + stall_us
                <= u64::MAX,
        ensures
            final(self)@ == stalled(old(self)@, stall_us, stall_kind@),
    {
        match self.current_span_id() {
            Some(id) => match find_record(&self.spans, id) {
                Some(i) => {
                    assert(self.spans.deep_view()[i as int] == self.spans@[i as int].deep_view());
                    let kind: Option<String> = match &self.spans[i].stall_kind {
                        Some(k) => Some(k.clone()),
                        None => Some(stall_kind.to_owned()),
                    };
                    let total: u64 = self.spans[i].stall_us + stall_us;
                    let changed: SpanRecord = SpanRecord {
                        stall_us: total,
                        stall_kind: kind,
                        ..self.spans[i].clone()
                    };
                    replace_record(&mut self.spans, i, changed);
                },
                None => {},
            },
            None => {},
        }
    }

    /// The spans so far, those that are open included.
    pub fn snapshot(&self) -> (r: Vec<SpanRecord>)
        ensures
            r.deep_view() == self@.spans,
    {
        let r: Vec<SpanRecord> = copy_records(&self.spans, 0);
        assert(self.spans.deep_view().skip(0) =~= self.spans.deep_view());
        r
    }

    /// The spans that were not handed out before.
    pub fn drain_new(&mut self) -> (r: Vec<SpanRecord>)
        ensures
            r.deep_view() == undrained(old(self)@),
            final(self)@ == spans_drained(old(self)@),
    {
        let r: Vec<SpanRecord> = if self.drain_cursor <= self.spans.len() {
            copy_records(&self.spans, self.drain_cursor)
        } else {
            Vec::new()
        };
        assert(r.deep_view() =~= undrained(self@));
        self.drain_cursor = self.spans.len();
        r
    }

    /// Takes all spans out. What is opened from then on is new to the next draining.
    pub fn extract_spans(&mut self) -> (r: Vec<SpanRecord>)
        ensures
            r.deep_view() == old(self)@.spans,
            final(self)@ == spans_extracted(old(self)@),
    {
        broadcast use crate::model::group_models;

        let mut spans: Vec<SpanRecord> = Vec::new();
        std::mem::swap(&mut spans, &mut self.spans);
        self.drain_cursor = 0;
        spans
    }

    /// The spans as a sequence of dicts; the values go into the arena.
    pub fn into_value(self, ctx: &mut EvalContext) -> (v: Value)
        requires
            all_writable(self@.spans),
        ensures
            (final(ctx).deep_view(), v.deep_view()) == records_value(
                self@.spans,
                old(ctx).deep_view(),
            ),
    {
        ProfilingCollector::spans_to_value(self.spans, ctx)
    }

    /// Records as a sequence of dicts; the values go into the arena.
    pub fn spans_to_value(spans: Vec<SpanRecord>, ctx: &mut EvalContext) -> (v: Value)
        requires
            all_writable(spans.deep_view()),
        ensures
            (final(ctx).deep_view(), v.deep_view()) == records_value(
                spans.deep_view(),
                old(ctx).deep_view(),
            ),
    {
        let ghost all = spans.deep_view();
        let ghost arena = ctx.deep_view();
        let mut acc: Value = make_seq_nil();
        let mut i: usize = spans.len();
        assert(all.skip(i as int) =~= Seq::empty());
        while i > 0
            invariant
                i <= spans@.len(),
                all == spans.deep_view(),
                all_writable(all),
                (ctx.deep_view(), acc.deep_view()) == records_value(all.skip(i as int), arena),
            decreases i,
        {
            i = i - 1;
            assert(all[i as int] == spans@[i as int].deep_view());
            assert(all.skip(i as int).drop_first() =~= all.skip(i + 1));
            let ghost tail = acc.deep_view();
            let dict: Value = spans[i].to_value(ctx);
            let head_id: ThunkId = ctx.alloc_value(dict);
            let tail_id: ThunkId = ctx.alloc_value(acc);
            acc = make_seq_cons(head_id, tail_id, ctx);
        }
        assert(all.skip(0) =~= all);
        acc
    }
}

impl Default for ProfilingCollector {
    fn default() -> (r: ProfilingCollector)
        ensures
            fresh(r@),
    {
        ProfilingCollector::new()
    }
}

/// Whether a text stands on one line: it holds no line feed, nor any other control character below
/// the space.
pub open spec fn one_line(s: Text) -> bool {
    forall|k: int| 0 <= k < s.len() ==> #[trigger] s[k] >= ' '
}

broadcast proof fn lines_join(a: Text, b: Text)
    requires
        one_line(a),
        one_line(b),
    ensures
        #[trigger] one_line(a + b),
{
}

proof fn escape_is_one_line(c: char)
    ensures
        one_line(escaped_char(c)),
{
    reveal_strlit("\\\"");
    reveal_strlit("\\\\");
    reveal_strlit("\\n");
    reveal_strlit("\\r");
    reveal_strlit("\\t");
}

proof fn escaped_is_one_line(s: Text)
    ensures
        one_line(escaped(s)),
    decreases s.len(),
{
    if s.len() > 0 {
        escaped_is_one_line(s.drop_last());
        escape_is_one_line(s.last());
        lines_join(escaped(s.drop_last()), escaped_char(s.last()));
    }
}

proof fn literal_is_one_line(s: Option<Text>)
    ensures
        one_line(optional_text(s)),
{
    broadcast use lines_join;

    reveal_strlit("\"");
    reveal_strlit("[]");
    assert(one_line("\""@));
    assert(one_line("[]"@));
    match s {
        Some(t) => {
            escaped_is_one_line(t);
        },
        None => {},
    }
}

proof fn number_is_one_line(n: int)
    ensures
        one_line(int_text(n)),
{
    let m = (if n < 0 {
        -n
    } else {
        n
    }) as nat;
    decimal_is_digits(m);
    assert forall|k: int| 0 <= k < int_text(n).len() implies #[trigger] int_text(n)[k] >= ' ' by {
        if n < 0 {
            if k > 0 {
                assert(digit(decimal(m)[k - 1]));
            }
        } else {
            assert(digit(decimal(m)[k]));
        }
    }
}

proof fn optional_number_is_one_line(n: Option<u64>)
    ensures
        one_line(optional_number(n)),
{
    reveal_strlit("[]");
    match n {
        Some(v) => {
            number_is_one_line(v as int);
        },
        None => {},
    }
}

proof fn place_is_one_line(place: Option<(usize, usize)>)
    ensures
        one_line(optional_place(place)),
{
    reveal_strlit("[]");
    match place {
        Some(p) => {
            number_is_one_line(packed(p));
        },
        None => {},
    }
}

/// A record is written on one line, whatever its texts hold.
pub proof fn record_is_one_line(r: RecordV)
    ensures
        one_line(record_line(r)),
{
    broadcast use lines_join;

    reveal_strlit("[id: ");
    reveal_strlit("  materialize-parent: ");
    reveal_strlit("  create-parent: ");
    reveal_strlit("  create-time-us: ");
    reveal_strlit("  source-file: ");
    reveal_strlit("  source-start: ");
    reveal_strlit("  source-end: ");
    reveal_strlit("  source-text: ");
    reveal_strlit("  builtin: ");
    reveal_strlit("  origin-builtin: ");
    reveal_strlit("  start-us: ");
    reveal_strlit("  end-us: ");
    reveal_strlit("  stall-us: ");
    reveal_strlit("  stall-kind: ");
    reveal_strlit("]");
    assert(one_line("[id: "@));
    assert(one_line("  materialize-parent: "@));
    assert(one_line("  create-parent: "@));
    assert(one_line("  create-time-us: "@));
    assert(one_line("  source-file: "@));
    assert(one_line("  source-start: "@));
    assert(one_line("  source-end: "@));
    assert(one_line("  source-text: "@));
    assert(one_line("  builtin: "@));
    assert(one_line("  origin-builtin: "@));
    assert(one_line("  start-us: "@));
    assert(one_line("  end-us: "@));
    assert(one_line("  stall-us: "@));
    assert(one_line("  stall-kind: "@));
    assert(one_line("]"@));
    number_is_one_line(r.id as int);
    optional_number_is_one_line(r.materialize_parent);
    optional_number_is_one_line(r.create_parent);
    number_is_one_line(r.create_time_us as int);
    literal_is_one_line(r.source_file);
    place_is_one_line(r.source_start);
    place_is_one_line(r.source_end);
    literal_is_one_line(r.source_text);
    literal_is_one_line(r.builtin_name);
    literal_is_one_line(r.origin_builtin);
    number_is_one_line(r.start_us as int);
    number_is_one_line(r.end_us as int);
    number_is_one_line(r.stall_us as int);
    literal_is_one_line(r.stall_kind);
}

proof fn escape_is_passed(src: Text, c: char, i: int)
    requires
        0 <= i,
        i + escaped_char(c).len() < src.len(),
        src.subrange(i, i + escaped_char(c).len()) == escaped_char(c),
    ensures
        closing_quotes(src, i, 1) == closing_quotes(src, i + escaped_char(c).len(), 1),
{
    reveal_strlit("\\\"");
    reveal_strlit("\\\\");
    reveal_strlit("\\n");
    reveal_strlit("\\r");
    reveal_strlit("\\t");
    let e = escaped_char(c);
    assert(e.len() == 1 || e.len() == 2);
    assert(src[i] == src.subrange(i, i + e.len())[0]);
    assert(src[i] != '"');
    assert(!quotes_at(src, i, 1));
}

pub(crate) proof fn escapes_are_passed(src: Text, s: Text, i: int)
    requires
        0 <= i,
        i + escaped(s).len() < src.len(),
        src.subrange(i, i + escaped(s).len()) == escaped(s),
    ensures
        closing_quotes(src, i, 1) == closing_quotes(src, i + escaped(s).len(), 1),
    decreases s.len(),
{
    if s.len() > 0 {
        let front = escaped(s.drop_last());
        let e = escaped_char(s.last());
        let all = src.subrange(i, i + escaped(s).len());
        assert(src.subrange(i, i + front.len()) =~= front) by {
            assert forall|k: int| 0 <= k < front.len() implies src[i + k] == front[k] by {
                assert(all[k] == (front + e)[k]);
            }
        }
        assert(src.subrange(i + front.len(), i + front.len() + e.len()) =~= e) by {
            assert forall|k: int| 0 <= k < e.len() implies src[i + front.len() + k] == e[k] by {
                assert(all[front.len() + k] == (front + e)[front.len() + k]);
            }
        }
        escapes_are_passed(src, s.drop_last(), i);
        escape_is_passed(src, s.last(), i + front.len());
    }
}

/// A text that is written as a string literal is read as one string literal, whatever it holds.
pub proof fn literal_reads_back(s: Text)
    ensures
        found_at(literal_text(s), 0, false) == FoundV::Lexeme(
            LexemeV {
                kind: KindV::Str { prefix: Seq::empty(), delimiter: "\""@, content: escaped(s) },
                start: 0,
                end: literal_text(s).len() as int,
            },
        ),
{
    reveal_strlit("\"");
    let src = literal_text(s);
    let end = src.len() - 1;
    assert(src[0] == '"' && src[end] == '"');
    assert(src.subrange(1, 1int + escaped(s).len()) =~= escaped(s));
    escapes_are_passed(src, s, 1);
    assert(quotes_at(src, end, 1));
    assert(closing_quotes(src, end, 1) == Some(end));
    assert(!quotes_at(src, 0, 3)) by {
        if s.len() == 0 {
        } else {
            escape_starts(s);
            assert(src[1] == escaped(s)[0]);
        }
    }
    assert(src.subrange(0, 0) =~= Seq::<char>::empty());
    assert(src.subrange(0, 1) =~= "\""@);
}

pub(crate) proof fn escape_starts(s: Text)
    requires
        s.len() > 0,
    ensures
        escaped(s).len() > 0,
        escaped(s)[0] != '"',
    decreases s.len(),
{
    reveal_strlit("\\\"");
    reveal_strlit("\\\\");
    reveal_strlit("\\n");
    reveal_strlit("\\r");
    reveal_strlit("\\t");
    if s.len() > 1 {
        escape_starts(s.drop_last());
    } else {
        assert(escaped(s.drop_last()) =~= Seq::empty());
    }
}

} // verus!
