//! The line of a record is a source: it parses to the dict of the record.
use crate::annotate::{drained, drained_node};
use crate::close::{close_step, closed, form_span};
use crate::colon::{colon_step, coloned};
use crate::frame::{form_name, opened_at, FrameV};
use crate::lexer::{
    decimal_is_digits, immediate, numeral_reads_back, region, token_of, tokens_from, tokens_of,
    TokV, TokenV,
};
use crate::model::{EntryV, ExprV, ItemV, NodeV, SpanV, Text};
use crate::node::{key_text, named_class};
use crate::open::{dict_frame, open_step, pushed};
use crate::parser::{outcome, parsed, step, OutputV};
use crate::place::{normal_key, placed};
use crate::profiling::{
    escape_starts, escaped, escapes_are_passed, field_entries, literal_text, optional_number,
    optional_place, optional_text, packed, record_fields, record_line, record_value, writable,
    RecordV,
};
use crate::scan::{
    closing_quotes, delimiter, digit, digits_end, found_at, lexemes, lexemes_from, quotes_at,
    word_end, FoundV, KindV, LexemeV, ScanErrorV,
};
use crate::state::{closed_off, respan, start_state, with_node, with_placed, StateV, StepV};
use crate::stream::{is_immediate_at, next_horizontal, next_significant};
use crate::text::{decimal, int_text};
use crate::thunk::{ThunkV, ValueV};
use crate::value::{literal_node, literal_step, with_word_key, word_step};
use vstd::prelude::*;

verus! {

/// What is written for a field of a record.
pub enum WrittenV {
    Number(int),
    Str(Text),
    Empty,
}

/// The text of a field's value.
pub open spec fn written_text(w: WrittenV) -> Text {
    match w {
        WrittenV::Number(n) => int_text(n),
        WrittenV::Str(t) => literal_text(t),
        WrittenV::Empty => "[]"@,
    }
}

/// The expression that a field's value is read as. A string literal keeps its text as it is
/// written, and a number beyond the signed ones is an unsigned one.
pub open spec fn written_expr(w: WrittenV) -> ExprV {
    match w {
        WrittenV::Number(n) => if n <= i64::MAX {
            ExprV::Int(n as i64)
        } else {
            ExprV::U64(n as u64)
        },
        WrittenV::Str(t) => ExprV::StringLiteral {
            prefix: Seq::empty(),
            delimiter: "\""@,
            content: escaped(t),
        },
        WrittenV::Empty => ExprV::Dict(Seq::empty()),
    }
}

/// What is written for an optional number.
pub open spec fn written_number(n: Option<u64>) -> WrittenV {
    match n {
        Some(v) => WrittenV::Number(v as int),
        None => WrittenV::Empty,
    }
}

/// What is written for an optional line and column.
pub open spec fn written_place(place: Option<(usize, usize)>) -> WrittenV {
    match place {
        Some(p) => WrittenV::Number(packed(p)),
        None => WrittenV::Empty,
    }
}

/// What is written for an optional text.
pub open spec fn written_string(s: Option<Text>) -> WrittenV {
    match s {
        Some(t) => WrittenV::Str(t),
        None => WrittenV::Empty,
    }
}

/// The fields of a record, in the order of its line.
pub open spec fn written_fields(r: RecordV) -> Seq<(Text, WrittenV)> {
    seq![
        ("id"@, WrittenV::Number(r.id as int)),
        ("materialize-parent"@, written_number(r.materialize_parent)),
        ("create-parent"@, written_number(r.create_parent)),
        ("create-time-us"@, WrittenV::Number(r.create_time_us as int)),
        ("source-file"@, written_string(r.source_file)),
        ("source-start"@, written_place(r.source_start)),
        ("source-end"@, written_place(r.source_end)),
        ("source-text"@, written_string(r.source_text)),
        ("builtin"@, written_string(r.builtin_name)),
        ("origin-builtin"@, written_string(r.origin_builtin)),
        ("start-us"@, WrittenV::Number(r.start_us as int)),
        ("end-us"@, WrittenV::Number(r.end_us as int)),
        ("stall-us"@, WrittenV::Number(r.stall_us as int)),
        ("stall-kind"@, written_string(r.stall_kind)),
    ]
}

/// A field on its line.
spec fn field_text(f: (Text, WrittenV)) -> Text {
    f.0 + ": "@ + written_text(f.1)
}

/// What stands before field `k`.
spec fn lead(k: int) -> Text {
    if k == 0 {
        Seq::empty()
    } else {
        "  "@
    }
}

/// Fields on one line.
spec fn fields_text(fs: Seq<(Text, WrittenV)>) -> Text
    decreases fs.len(),
{
    if fs.len() == 0 {
        Seq::empty()
    } else {
        fields_text(fs.drop_last()) + (lead(fs.len() - 1) + field_text(fs.last()))
    }
}

/// The line of a dict with fields.
spec fn dict_text(fs: Seq<(Text, WrittenV)>) -> Text {
    "["@ + fields_text(fs) + "]"@
}

proof fn one_more_field(fs: Seq<(Text, WrittenV)>, k: int, front: Text, name: Text, value: Text)
    requires
        1 <= k < fs.len(),
        front == "["@ + fields_text(fs.take(k)),
        name == "  "@ + fs[k].0 + ": "@,
        value == written_text(fs[k].1),
    ensures
        front + name + value == "["@ + fields_text(fs.take(k + 1)),
{
    assert(fs.take(k + 1).drop_last() =~= fs.take(k));
    assert(fs.take(k + 1).last() == fs[k]);
    assert(front + name + value =~= "["@ + fields_text(fs.take(k + 1)));
}

proof fn line_is_dict(r: RecordV)
    ensures
        record_line(r) == dict_text(written_fields(r)),
{
    reveal_strlit("[id: ");
    reveal_strlit("  materialize-parent: ");
    reveal_strlit("  create-parent: ");
    reveal_strlit("  create-time-us: ");
    reveal_strlit("  source-file: ");
    reveal_strlit("  source-start: ");
    reveal_strlit("  source-end: ");
    reveal_strlit("  source-text: ");
    reveal_strlit("  builtin: ");
    reveal_strlit("  origin-builtin: ");
    reveal_strlit("  start-us: ");
    reveal_strlit("  end-us: ");
    reveal_strlit("  stall-us: ");
    reveal_strlit("  stall-kind: ");
    reveal_strlit("  ");
    reveal_strlit(": ");
    reveal_strlit("[");
    reveal_strlit("id");
    reveal_strlit("materialize-parent");
    reveal_strlit("create-parent");
    reveal_strlit("create-time-us");
    reveal_strlit("source-file");
    reveal_strlit("source-start");
    reveal_strlit("source-end");
    reveal_strlit("source-text");
    reveal_strlit("builtin");
    reveal_strlit("origin-builtin");
    reveal_strlit("start-us");
    reveal_strlit("end-us");
    reveal_strlit("stall-us");
    reveal_strlit("stall-kind");
    let fs = written_fields(r);
    let l1 = "[id: "@ + decimal(r.id as nat);
    assert(l1 == "["@ + fields_text(fs.take(1))) by {
        reveal_with_fuel(fields_text, 2);
        assert(fs.take(1).drop_last() =~= Seq::empty());
        assert(fs.take(1).last() == fs[0]);
        assert(l1 =~= "["@ + fields_text(fs.take(1)));
    }
    assert("  materialize-parent: "@ =~= "  "@ + fs[1].0 + ": "@);
    assert("  create-parent: "@ =~= "  "@ + fs[2].0 + ": "@);
    assert("  create-time-us: "@ =~= "  "@ + fs[3].0 + ": "@);
    assert("  source-file: "@ =~= "  "@ + fs[4].0 + ": "@);
    assert("  source-start: "@ =~= "  "@ + fs[5].0 + ": "@);
    assert("  source-end: "@ =~= "  "@ + fs[6].0 + ": "@);
    assert("  source-text: "@ =~= "  "@ + fs[7].0 + ": "@);
    assert("  builtin: "@ =~= "  "@ + fs[8].0 + ": "@);
    assert("  origin-builtin: "@ =~= "  "@ + fs[9].0 + ": "@);
    assert("  start-us: "@ =~= "  "@ + fs[10].0 + ": "@);
    assert("  end-us: "@ =~= "  "@ + fs[11].0 + ": "@);
    assert("  stall-us: "@ =~= "  "@ + fs[12].0 + ": "@);
    assert("  stall-kind: "@ =~= "  "@ + fs[13].0 + ": "@);
    let l2 = l1 + "  materialize-parent: "@ + optional_number(r.materialize_parent);
    one_more_field(fs, 1, l1, "  materialize-parent: "@, optional_number(r.materialize_parent));
    let l3 = l2 + "  create-parent: "@ + optional_number(r.create_parent);
    one_more_field(fs, 2, l2, "  create-parent: "@, optional_number(r.create_parent));
    let l4 = l3 + "  create-time-us: "@ + decimal(r.create_time_us as nat);
    one_more_field(fs, 3, l3, "  create-time-us: "@, decimal(r.create_time_us as nat));
    let l5 = l4 + "  source-file: "@ + optional_text(r.source_file);
    one_more_field(fs, 4, l4, "  source-file: "@, optional_text(r.source_file));
    let l6 = l5 + "  source-start: "@ + optional_place(r.source_start);
    one_more_field(fs, 5, l5, "  source-start: "@, optional_place(r.source_start));
    let l7 = l6 + "  source-end: "@ + optional_place(r.source_end);
    one_more_field(fs, 6, l6, "  source-end: "@, optional_place(r.source_end));
    let l8 = l7 + "  source-text: "@ + optional_text(r.source_text);
    one_more_field(fs, 7, l7, "  source-text: "@, optional_text(r.source_text));
    let l9 = l8 + "  builtin: "@ + optional_text(r.builtin_name);
    one_more_field(fs, 8, l8, "  builtin: "@, optional_text(r.builtin_name));
    let l10 = l9 + "  origin-builtin: "@ + optional_text(r.origin_builtin);
    one_more_field(fs, 9, l9, "  origin-builtin: "@, optional_text(r.origin_builtin));
    let l11 = l10 + "  start-us: "@ + decimal(r.start_us as nat);
    one_more_field(fs, 10, l10, "  start-us: "@, decimal(r.start_us as nat));
    let l12 = l11 + "  end-us: "@ + decimal(r.end_us as nat);
    one_more_field(fs, 11, l11, "  end-us: "@, decimal(r.end_us as nat));
    let l13 = l12 + "  stall-us: "@ + decimal(r.stall_us as nat);
    one_more_field(fs, 12, l12, "  stall-us: "@, decimal(r.stall_us as nat));
    let l14 = l13 + "  stall-kind: "@ + optional_text(r.stall_kind);
    one_more_field(fs, 13, l13, "  stall-kind: "@, optional_text(r.stall_kind));
    assert(fs.take(14) =~= fs);
    assert(record_line(r) == l14 + "]"@);
}

/// Whether a text is a name that is one word, and no keyword.
spec fn plain_name(name: Text) -> bool {
    &&& name.len() > 0
    &&& !digit(name[0])
    &&& name[0] != '-'
    &&& forall|k: int| 0 <= k < name.len() ==> !delimiter(#[trigger] name[k])
    &&& name != "let"@
    &&& name != "case"@
}

/// Whether what is written can be read.
spec fn readable(w: WrittenV) -> bool {
    w matches WrittenV::Number(n) ==> i64::MIN <= n <= u64::MAX
}

/// Whether fields have names that can be read and that differ, and values that can be read.
spec fn readable_fields(fs: Seq<(Text, WrittenV)>) -> bool {
    &&& forall|k: int|
        0 <= k < fs.len() ==> plain_name((#[trigger] fs[k]).0) && readable(fs[k].1)
    &&& forall|j: int, k: int|
        0 <= j < k < fs.len() ==> (#[trigger] fs[j]).0 != (#[trigger] fs[k]).0
}

/// The lexemes of a field's value.
spec fn value_kinds(w: WrittenV) -> Seq<KindV> {
    match w {
        WrittenV::Number(n) => seq![KindV::Number { text: int_text(n), fraction: false }],
        WrittenV::Str(t) => seq![
            KindV::Str { prefix: Seq::empty(), delimiter: "\""@, content: escaped(t) },
        ],
        WrittenV::Empty => seq![KindV::Open, KindV::Close],
    }
}

/// The lexemes of a field.
spec fn field_kinds(f: (Text, WrittenV)) -> Seq<KindV> {
    seq![KindV::Word(f.0), KindV::Colon] + value_kinds(f.1)
}

/// The lexemes of fields.
spec fn all_kinds(fs: Seq<(Text, WrittenV)>) -> Seq<KindV>
    decreases fs.len(),
{
    if fs.len() == 0 {
        Seq::empty()
    } else {
        all_kinds(fs.drop_last()) + field_kinds(fs.last())
    }
}

spec fn kinds(ls: Seq<LexemeV>) -> Seq<KindV> {
    Seq::new(ls.len(), |i: int| ls[i].kind)
}

/// Whether the lexemes so far end in no dot, so that a number can follow.
spec fn no_dot(found: Seq<LexemeV>) -> bool {
    found.len() > 0 && !(found.last().kind is Dot)
}

proof fn word_ends(src: Text, i: int, e: int)
    requires
        0 <= i <= e < src.len(),
        forall|k: int| i <= k < e ==> !delimiter(#[trigger] src[k]),
        delimiter(src[e]),
    ensures
        word_end(src, i) == e,
    decreases e - i,
{
    if i < e {
        word_ends(src, i + 1, e);
    }
}

proof fn digits_stop(src: Text, i: int, e: int)
    requires
        0 <= i <= e < src.len(),
        forall|k: int| i <= k < e ==> digit(#[trigger] src[k]),
        !digit(src[e]),
    ensures
        digits_end(src, i) == e,
    decreases e - i,
{
    if i < e {
        digits_stop(src, i + 1, e);
    }
}

/// A text stands at place `i` of a source.
spec fn stands(src: Text, i: int, t: Text) -> bool {
    &&& 0 <= i
    &&& i + t.len() <= src.len()
    &&& forall|k: int| 0 <= k < t.len() ==> src[i + k] == #[trigger] t[k]
}

proof fn lex_name(src: Text, i: int, name: Text)
    requires
        plain_name(name),
        stands(src, i, name),
        i + name.len() < src.len(),
        src[i + name.len()] == ':',
    ensures
        found_at(src, i, false) == FoundV::Lexeme(
            LexemeV { kind: KindV::Word(name), start: i, end: i + name.len() },
        ),
{
    reveal_strlit("---");
    let e = i + name.len();
    assert(src[i] == name[0]);
    assert forall|k: int| i <= k < e implies !delimiter(#[trigger] src[k]) by {
        assert(src[i + (k - i)] == name[k - i]);
    }
    word_ends(src, i, e);
    assert(src.subrange(i, e) =~= name) by {
        assert forall|k: int| 0 <= k < name.len() implies src.subrange(i, e)[k] == name[k] by {
            assert(src[i + k] == name[k]);
        }
    }
    assert(name != "---"@) by {
        assert("---"@[0] == '-');
    }
}

proof fn lex_number(src: Text, i: int, n: int)
    requires
        stands(src, i, int_text(n)),
        i + int_text(n).len() < src.len(),
        src[i + int_text(n).len()] == ' ' || src[i + int_text(n).len()] == ']',
    ensures
        found_at(src, i, false) == FoundV::Lexeme(
            LexemeV {
                kind: KindV::Number { text: int_text(n), fraction: false },
                start: i,
                end: i + int_text(n).len(),
            },
        ),
{
    let text = int_text(n);
    let e = i + text.len();
    let m = (if n < 0 {
        -n
    } else {
        n
    }) as nat;
    decimal_is_digits(m);
    let from: int = if n < 0 {
        i + 1
    } else {
        i
    };
    assert forall|k: int| from <= k < e implies digit(#[trigger] src[k]) by {
        assert(src[i + (k - i)] == text[k - i]);
        assert(digit(decimal(m)[k - from]));
        assert(text[k - i] == decimal(m)[k - from]);
    }
    assert(src[i] == text[0]);
    assert(digit(src[from]));
    digits_stop(src, from, e);
    assert(src.subrange(i, e) =~= text) by {
        assert forall|k: int| 0 <= k < text.len() implies src.subrange(i, e)[k] == text[k] by {
            assert(src[i + k] == text[k]);
        }
    }
}

proof fn lex_string(src: Text, i: int, t: Text)
    requires
        stands(src, i, literal_text(t)),
        i + literal_text(t).len() < src.len(),
        src[i + literal_text(t).len()] == ' ' || src[i + literal_text(t).len()] == ']',
    ensures
        found_at(src, i, false) == FoundV::Lexeme(
            LexemeV {
                kind: KindV::Str { prefix: Seq::empty(), delimiter: "\""@, content: escaped(t) },
                start: i,
                end: i + literal_text(t).len(),
            },
        ),
{
    reveal_strlit("\"");
    let text = literal_text(t);
    let inner = escaped(t);
    let end = i + 1 + inner.len();
    assert(src[i] == text[0]);
    assert(src[i + (text.len() - 1)] == text[text.len() - 1]);
    assert(src[end] == '"');
    assert forall|k: int| 0 <= k < inner.len() implies src[i + 1 + k] == #[trigger] inner[k] by {
        assert(src[i + (k + 1)] == text[k + 1]);
    }
    assert(src.subrange(i + 1, end) =~= inner);
    escapes_are_passed(src, t, i + 1);
    assert(quotes_at(src, end, 1));
    assert(closing_quotes(src, end, 1) == Some(end));
    assert(!quotes_at(src, i, 3)) by {
        if t.len() == 0 {
            assert(inner =~= Seq::empty());
            assert(src[i + 2] != '"');
        } else {
            escape_starts(t);
            assert(src[i + 1] == inner[0]);
        }
    }
    assert(src.subrange(i, i) =~= Seq::<char>::empty());
    assert(src.subrange(i, i + 1) =~= "\""@);
}

/// One lexeme is found.
proof fn lex_one(src: Text, i: int, found: Seq<LexemeV>, l: LexemeV)
    requires
        0 <= i < src.len(),
        !(found.len() > 0 && found.last().kind is Dot),
        found_at(src, i, false) == FoundV::Lexeme(l),
        i < l.end <= src.len(),
    ensures
        lexemes_from(src, i, found) == lexemes_from(src, l.end, found.push(l)),
{
}

proof fn lex_value(src: Text, i: int, found: Seq<LexemeV>, w: WrittenV) -> (after: Seq<LexemeV>)
    requires
        no_dot(found),
        stands(src, i, written_text(w)),
        i + written_text(w).len() < src.len(),
        src[i + written_text(w).len()] == ' ' || src[i + written_text(w).len()] == ']',
    ensures
        lexemes_from(src, i, found) == lexemes_from(src, i + written_text(w).len(), after),
        no_dot(after),
        kinds(after) == kinds(found) + value_kinds(w),
{
    match w {
        WrittenV::Number(n) => {
            lex_number(src, i, n);
            let m = (if n < 0 {
                -n
            } else {
                n
            }) as nat;
            decimal_is_digits(m);
            let l = LexemeV {
                kind: KindV::Number { text: int_text(n), fraction: false },
                start: i,
                end: i + int_text(n).len(),
            };
            lex_one(src, i, found, l);
            assert(kinds(found.push(l)) =~= kinds(found) + value_kinds(w));
            found.push(l)
        },
        WrittenV::Str(t) => {
            lex_string(src, i, t);
            reveal_strlit("\"");
            let l = LexemeV {
                kind: KindV::Str { prefix: Seq::empty(), delimiter: "\""@, content: escaped(t) },
                start: i,
                end: i + literal_text(t).len(),
            };
            lex_one(src, i, found, l);
            assert(kinds(found.push(l)) =~= kinds(found) + value_kinds(w));
            found.push(l)
        },
        WrittenV::Empty => {
            reveal_strlit("[]");
            assert(src[i + 0] == "[]"@[0]);
            assert(src[i + 1] == "[]"@[1]);
            let a = LexemeV { kind: KindV::Open, start: i, end: i + 1 };
            let b = LexemeV { kind: KindV::Close, start: i + 1, end: i + 2 };
            lex_one(src, i, found, a);
            lex_one(src, i + 1, found.push(a), b);
            assert(kinds(found.push(a).push(b)) =~= kinds(found) + value_kinds(w));
            found.push(a).push(b)
        },
    }
}

proof fn lex_field(src: Text, i: int, found: Seq<LexemeV>, f: (Text, WrittenV)) -> (after: Seq<
    LexemeV,
>)
    requires
        no_dot(found),
        plain_name(f.0),
        stands(src, i, field_text(f)),
        i + field_text(f).len() < src.len(),
        src[i + field_text(f).len()] == ' ' || src[i + field_text(f).len()] == ']',
    ensures
        lexemes_from(src, i, found) == lexemes_from(src, i + field_text(f).len(), after),
        no_dot(after),
        kinds(after) == kinds(found) + field_kinds(f),
{
    reveal_strlit(": ");
    let text = field_text(f);
    let n = f.0.len() as int;
    assert(stands(src, i, f.0)) by {
        assert forall|k: int| 0 <= k < n implies src[i + k] == #[trigger] f.0[k] by {
            assert(src[i + k] == text[k]);
        }
    }
    assert(src[i + n] == text[n]);
    assert(src[i + (n + 1)] == text[n + 1]);
    assert(stands(src, i + n + 2, written_text(f.1))) by {
        assert forall|k: int| 0 <= k < written_text(f.1).len() implies src[i + n + 2 + k]
            == #[trigger] written_text(f.1)[k] by {
            assert(src[i + (n + 2 + k)] == text[n + 2 + k]);
        }
    }
    lex_name(src, i, f.0);
    let a = LexemeV { kind: KindV::Word(f.0), start: i, end: i + n };
    let b = LexemeV { kind: KindV::Colon, start: i + n, end: i + n + 1 };
    lex_one(src, i, found, a);
    lex_one(src, i + n, found.push(a), b);
    let both = found.push(a).push(b);
    assert(src[i + n + 1] == ' ');
    assert(lexemes_from(src, i + n + 1, both) == lexemes_from(src, i + n + 2, both));
    let after = lex_value(src, i + n + 2, both, f.1);
    assert(kinds(after) =~= kinds(found) + field_kinds(f)) by {
        assert(kinds(both) =~= kinds(found) + seq![KindV::Word(f.0), KindV::Colon]);
    }
    after
}

proof fn texts_grow(fs: Seq<(Text, WrittenV)>, k: int)
    requires
        0 <= k <= fs.len(),
    ensures
        stands(fields_text(fs), 0, fields_text(fs.take(k))),
    decreases fs.len() - k,
{
    if k == fs.len() {
        assert(fs.take(k) =~= fs);
    } else {
        texts_grow(fs, k + 1);
        assert(fs.take(k + 1).drop_last() =~= fs.take(k));
        let more = fields_text(fs.take(k + 1));
        let less = fields_text(fs.take(k));
        assert forall|j: int| 0 <= j < less.len() implies fields_text(fs)[0 + j]
            == #[trigger] less[j] by {
            assert(fields_text(fs)[0 + j] == more[j]);
        }
    }
}

/// Where field `k` stands on the line: behind what leads to it, with a space or a bracket behind
/// it.
proof fn field_stands(fs: Seq<(Text, WrittenV)>, k: int)
    requires
        0 <= k < fs.len(),
    ensures
        ({
            let src = dict_text(fs);
            let i = 1int + fields_text(fs.take(k)).len();
            let e = 1int + fields_text(fs.take(k + 1)).len();
            &&& e == i + lead(k).len() + field_text(fs[k]).len()
            &&& stands(src, i, lead(k))
            &&& stands(src, i + lead(k).len(), field_text(fs[k]))
            &&& e < src.len()
            &&& src[e] == ' ' || src[e] == ']'
        }),
{
    reveal_strlit("[");
    reveal_strlit("]");
    reveal_strlit("  ");
    let src = dict_text(fs);
    let all = fields_text(fs);
    let less = fields_text(fs.take(k));
    let more = fields_text(fs.take(k + 1));
    assert(fs.take(k + 1).drop_last() =~= fs.take(k));
    assert(fs.take(k + 1).last() == fs[k]);
    texts_grow(fs, k + 1);
    let i = 1int + less.len();
    let e = 1int + more.len();
    let text = field_text(fs[k]);
    assert forall|j: int| 0 <= j < more.len() implies src[1 + j] == #[trigger] more[j] by {
        assert(all[0 + j] == more[j]);
    }
    assert forall|j: int| 0 <= j < lead(k).len() implies src[i + j] == #[trigger] lead(k)[j] by {
        assert(src[1 + (less.len() + j)] == more[less.len() + j]);
    }
    assert forall|j: int| 0 <= j < text.len() implies src[i + lead(k).len() + j]
        == #[trigger] text[j] by {
        let m = less.len() as int + lead(k).len() + j;
        assert(src[1 + m] == more[m]);
    }
    if k + 1 < fs.len() {
        let next = fields_text(fs.take(k + 2));
        assert(fs.take(k + 2).drop_last() =~= fs.take(k + 1));
        texts_grow(fs, k + 2);
        let m = more.len() as int;
        assert(next[m] == ' ');
        assert(all[0 + m] == next[m]);
    } else {
        assert(fs.take(k + 1) =~= fs);
    }
}

proof fn lex_fields(fs: Seq<(Text, WrittenV)>, k: int) -> (found: Seq<LexemeV>)
    requires
        readable_fields(fs),
        0 <= k <= fs.len(),
    ensures
        lexemes(dict_text(fs)) == lexemes_from(
            dict_text(fs),
            1int + fields_text(fs.take(k)).len(),
            found,
        ),
        no_dot(found),
        kinds(found) == seq![KindV::Open] + all_kinds(fs.take(k)),
    decreases k,
{
    reveal_strlit("[");
    reveal_strlit("  ");
    let src = dict_text(fs);
    if k == 0 {
        assert(fs.take(0) =~= Seq::empty());
        assert(src[0] == '[');
        let l = LexemeV { kind: KindV::Open, start: 0, end: 1 };
        lex_one(src, 0, Seq::empty(), l);
        let found = Seq::<LexemeV>::empty().push(l);
        assert(kinds(found) =~= seq![KindV::Open] + all_kinds(fs.take(0)));
        found
    } else {
        let found = lex_fields(fs, k - 1);
        let f = fs[k - 1];
        let i = 1int + fields_text(fs.take(k - 1)).len();
        field_stands(fs, k - 1);
        assert(plain_name(f.0));
        if k > 1 {
            assert(src[i + 0] == lead(k - 1)[0]);
            assert(src[i + 1] == lead(k - 1)[1]);
            assert(lexemes_from(src, i, found) == lexemes_from(src, i + 1, found));
            assert(lexemes_from(src, i + 1, found) == lexemes_from(src, i + 2, found));
        }
        let after = lex_field(src, i + lead(k - 1).len(), found, f);
        assert(fs.take(k).drop_last() =~= fs.take(k - 1));
        assert(fs.take(k).last() == f);
        assert(kinds(after) =~= seq![KindV::Open] + all_kinds(fs.take(k)));
        after
    }
}

/// The lexemes of a dict with fields.
spec fn dict_kinds(fs: Seq<(Text, WrittenV)>) -> Seq<KindV> {
    seq![KindV::Open] + all_kinds(fs) + seq![KindV::Close]
}

proof fn lex_dict(fs: Seq<(Text, WrittenV)>) -> (ls: Seq<LexemeV>)
    requires
        readable_fields(fs),
    ensures
        lexemes(dict_text(fs)) == Ok::<Seq<LexemeV>, ScanErrorV>(ls),
        kinds(ls) == dict_kinds(fs),
{
    reveal_strlit("[");
    reveal_strlit("]");
    let src = dict_text(fs);
    let n = fs.len() as int;
    let found = lex_fields(fs, n);
    assert(fs.take(n) =~= fs);
    let i = 1int + fields_text(fs).len();
    assert(src[i] == ']');
    let l = LexemeV { kind: KindV::Close, start: i, end: i + 1 };
    lex_one(src, i, found, l);
    assert(src.len() == i + 1);
    assert(kinds(found.push(l)) =~= dict_kinds(fs));
    found.push(l)
}

/// The token of a lexeme in a line.
spec fn line_token(kind: KindV) -> TokenV {
    token_of(kind, false)->Ok_0
}

/// Whether a lexeme is a token in a line, whatever stands before it.
spec fn line_kind(kind: KindV) -> bool {
    &&& !(kind is At)
    &&& token_of(kind, false) is Ok
}

proof fn kinds_are_tokens(fs: Seq<(Text, WrittenV)>, i: int)
    requires
        readable_fields(fs),
        0 <= i < all_kinds(fs).len(),
    ensures
        line_kind(all_kinds(fs)[i]),
    decreases fs.len(),
{
    if fs.len() > 0 {
        let before = all_kinds(fs.drop_last());
        if i < before.len() {
            assert forall|k: int| 0 <= k < fs.len() - 1 implies plain_name(
                (#[trigger] fs.drop_last()[k]).0,
            ) && readable(fs.drop_last()[k].1) by {
                assert(plain_name(fs[k].0));
            }
            kinds_are_tokens(fs.drop_last(), i);
        } else {
            let f = fs[fs.len() - 1];
            assert(readable(f.1));
            value_is_token(f.1);
            let j = i - before.len();
            assert(all_kinds(fs)[i] == field_kinds(f)[j]);
            if j >= 2 {
                assert(field_kinds(f)[j] == value_kinds(f.1)[j - 2]);
            }
        }
    }
}

proof fn value_is_token(w: WrittenV)
    requires
        readable(w),
    ensures
        forall|j: int|
            0 <= j < value_kinds(w).len() ==> line_kind(#[trigger] value_kinds(w)[j]),
        w matches WrittenV::Number(n) ==> line_token(value_kinds(w)[0]) == (if n <= i64::MAX {
            TokenV::Int(n as i64)
        } else {
            TokenV::U64Lit(n as u64)
        }),
{
    match w {
        WrittenV::Number(n) => {
            if n <= i64::MAX {
                numeral_reads_back(n as i64);
            } else {
                decimal_is_digits(n as nat);
                assert(digit(decimal(n as nat)[0]));
            }
        },
        _ => {},
    }
}

proof fn tokens_follow(src: Text, file: Text, ls: Seq<LexemeV>, k: int, made: Seq<TokV>)
    requires
        0 <= k <= ls.len(),
        made.len() == k,
        forall|j: int| 0 <= j < k ==> (#[trigger] made[j]).tok == line_token(ls[j].kind),
        forall|j: int| 0 <= j < ls.len() ==> line_kind((#[trigger] ls[j]).kind),
    ensures
        tokens_from(src, file, ls, k, made) matches Ok(ts) && ts.len() == ls.len() && forall|j: int|
            0 <= j < ts.len() ==> (#[trigger] ts[j]).tok == line_token(ls[j].kind),
    decreases ls.len() - k,
{
    if k < ls.len() {
        assert(line_kind(ls[k].kind));
        let tok = line_token(ls[k].kind);
        let t = TokV { tok, span: region(src, file, ls[k].start, ls[k].end) };
        assert(token_of(ls[k].kind, immediate(ls, k)) == token_of(ls[k].kind, false));
        tokens_follow(src, file, ls, k + 1, made.push(t));
    }
}

/// Whether tokens are those of a dict with fields.
spec fn dict_tokens(ts: Seq<TokV>, fs: Seq<(Text, WrittenV)>) -> bool {
    &&& ts.len() == dict_kinds(fs).len()
    &&& forall|j: int| 0 <= j < ts.len() ==> (#[trigger] ts[j]).tok == line_token(dict_kinds(fs)[j])
}

proof fn dict_has_tokens(fs: Seq<(Text, WrittenV)>, file: Text)
    requires
        readable_fields(fs),
    ensures
        tokens_of(dict_text(fs), file) matches Ok(ts) && dict_tokens(ts, fs),
{
    let ls = lex_dict(fs);
    assert(ls.len() == kinds(ls).len());
    assert forall|j: int| 0 <= j < ls.len() implies line_kind((#[trigger] ls[j]).kind) by {
        assert(ls[j].kind == kinds(ls)[j]);
        if 0 < j < ls.len() - 1 {
            kinds_are_tokens(fs, j - 1);
            assert(dict_kinds(fs)[j] == all_kinds(fs)[j - 1]);
        }
    }
    tokens_follow(dict_text(fs), file, ls, 0, Seq::empty());
    let ts = tokens_of(dict_text(fs), file)->Ok_0;
    assert forall|j: int| 0 <= j < ts.len() implies (#[trigger] ts[j]).tok == line_token(
        dict_kinds(fs)[j],
    ) by {
        assert(ls[j].kind == kinds(ls)[j]);
    }
}

/// The place of the first token of field `k`.
spec fn field_place(fs: Seq<(Text, WrittenV)>, k: int) -> int {
    1int + all_kinds(fs.take(k)).len()
}

proof fn kinds_grow(fs: Seq<(Text, WrittenV)>, k: int)
    requires
        0 <= k <= fs.len(),
    ensures
        all_kinds(fs.take(k)).is_prefix_of(all_kinds(fs)),
    decreases fs.len() - k,
{
    if k == fs.len() {
        assert(fs.take(k) =~= fs);
    } else {
        kinds_grow(fs, k + 1);
        assert(fs.take(k + 1).drop_last() =~= fs.take(k));
        let more = all_kinds(fs.take(k + 1));
        let less = all_kinds(fs.take(k));
        assert forall|j: int| 0 <= j < less.len() implies less[j] == all_kinds(fs)[j] by {
            assert(more[j] == all_kinds(fs)[j]);
        }
    }
}

/// The tokens of field `k`.
proof fn field_tokens(ts: Seq<TokV>, fs: Seq<(Text, WrittenV)>, k: int)
    requires
        dict_tokens(ts, fs),
        0 <= k < fs.len(),
    ensures
        field_place(fs, k + 1) == field_place(fs, k) + field_kinds(fs[k]).len(),
        field_place(fs, k + 1) < ts.len(),
        forall|j: int|
            0 <= j < field_kinds(fs[k]).len() ==> ts[field_place(fs, k) + j].tok == line_token(
                #[trigger] field_kinds(fs[k])[j],
            ),
{
    kinds_grow(fs, k + 1);
    assert(fs.take(k + 1).drop_last() =~= fs.take(k));
    assert(fs.take(k + 1).last() == fs[k]);
    let p = field_place(fs, k);
    let more = all_kinds(fs.take(k + 1));
    assert forall|j: int| 0 <= j < field_kinds(fs[k]).len() implies ts[p + j].tok == line_token(
        #[trigger] field_kinds(fs[k])[j],
    ) by {
        assert(more[p - 1 + j] == field_kinds(fs[k])[j]);
        assert(all_kinds(fs)[p - 1 + j] == more[p - 1 + j]);
        assert(dict_kinds(fs)[p + j] == all_kinds(fs)[p - 1 + j]);
    }
}

/// Whether an entry of a dict is what a field is read as: its name is the key, as a string.
pub open spec fn entry_reads(e: EntryV, f: (Text, WrittenV)) -> bool {
    &&& e.key is Some
    &&& e.key->0.expr == (ExprV::StringLiteral {
        prefix: Seq::empty(),
        delimiter: "\""@,
        content: f.0,
    })
    &&& e.value.expr == written_expr(f.1)
}

/// Whether the entries of a dict are what fields are read as, in their order.
pub open spec fn entries_read(entries: Seq<EntryV>, fs: Seq<(Text, WrittenV)>) -> bool {
    &&& entries.len() == fs.len()
    &&& forall|i: int| 0 <= i < fs.len() ==> entry_reads(#[trigger] entries[i], fs[i])
}

spec fn named(fs: Seq<(Text, WrittenV)>, name: Text) -> bool {
    exists|i: int| 0 <= i < fs.len() && (#[trigger] fs[i]).0 == name
}

/// An open dict whose entries so far are what fields are read as, with a key that waits or none.
spec fn open_dict(f: FrameV, fs: Seq<(Text, WrittenV)>, key: Option<Text>) -> bool {
    match f {
        FrameV::Dict { entries, pending_key, seen_keys, floating_annotation, .. } => {
            &&& entries_read(entries, fs)
            &&& floating_annotation is None
            &&& forall|t: Text| seen_keys.contains(t) ==> #[trigger] named(fs, t)
            &&& match key {
                Some(name) => pending_key is Some && pending_key->0.expr == (ExprV::StringLiteral {
                    prefix: Seq::empty(),
                    delimiter: "\""@,
                    content: name,
                }),
                None => pending_key is None,
            }
        },
        _ => false,
    }
}

/// Nothing but one open dict.
spec fn reading(s: StateV, fs: Seq<(Text, WrittenV)>, key: Option<Text>) -> bool {
    &&& s.stack.len() == 1
    &&& open_dict(s.stack[0], fs, key)
    &&& s.items.len() == 0
    &&& s.documents.len() == 0
    &&& s.header.len() == 0
    &&& s.diagnostics.len() == 0
}

/// A value is put into the dict.
proof fn value_is_put(s: StateV, fs: Seq<(Text, WrittenV)>, f: (Text, WrittenV), node: NodeV)
    requires
        reading(s, fs, Some(f.0)),
        !named(fs, f.0),
        node.expr == written_expr(f.1),
    ensures
        placed(s.stack, s.items, node).error is None,
        reading(with_placed(s, placed(s.stack, s.items, node)), fs.push(f), None),
{
    let p = placed(s.stack, s.items, node);
    let all = fs.push(f);
    match s.stack[0] {
        FrameV::Dict { entries, pending_key: Some(key), seen_keys, .. } => {
            assert(s.stack.last() == s.stack[0]);
            assert(normal_key(key) == key);
            assert(key_text(key.expr) == Some(f.0));
            assert(named_class(node, key) == node);
            assert(!seen_keys.contains(f.0));
            match p.stack[0] {
                FrameV::Dict { entries: after, seen_keys: seen, .. } => {
                    assert forall|i: int| 0 <= i < all.len() implies entry_reads(
                        #[trigger] after[i],
                        all[i],
                    ) by {
                        if i < fs.len() {
                            assert(entry_reads(entries[i], fs[i]));
                        }
                    }
                    assert forall|t: Text| seen.contains(t) implies #[trigger] named(all, t) by {
                        if t == f.0 {
                            assert(all[fs.len() as int].0 == t);
                        } else {
                            assert(seen_keys.contains(t));
                            assert(named(fs, t));
                            let i = choose|i: int|
                                0 <= i < fs.len() && (#[trigger] fs[i]).0 == t;
                            assert(all[i].0 == t);
                        }
                    }
                },
                _ => {},
            }
        },
        _ => {},
    }
}

/// A step leads on to the next token.
spec fn goes_to(s: StateV, ts: Seq<TokV>, i: int, t: StateV, j: int) -> bool {
    outcome(s, ts, i) == outcome(t, ts, j)
}

proof fn step_goes(s: StateV, ts: Seq<TokV>, i: int, t: StateV, j: int)
    requires
        0 <= i < ts.len(),
        step(s, ts, i) == StepV::Next(t, j),
    ensures
        goes_to(s, ts, i, t, j),
{
}

proof fn key_is_read(s: StateV, ts: Seq<TokV>, i: int, fs: Seq<(Text, WrittenV)>, name: Text) -> (t:
    StateV)
    requires
        reading(s, fs, None),
        0 <= i,
        i + 1 < ts.len(),
        ts[i].tok == TokenV::Identifier(name),
        ts[i + 1].tok is Colon,
    ensures
        goes_to(s, ts, i, t, i + 2),
        reading(t, fs, Some(name)),
{
    reveal(step);
    reveal(word_step);
    reveal(colon_step);
    let span = ts[i].span;
    assert(next_horizontal(ts, i + 1) == i + 1);
    assert(s.stack.last() == s.stack[0]);
    let f = with_word_key(s.stack.last(), name, span)->0;
    let a = StateV {
        stack: s.stack.drop_last().push(f),
        last: Some(span),
        node: Some(span),
        ..s
    };
    assert(step(s, ts, i) == StepV::Next(a, i + 1));
    step_goes(s, ts, i, a, i + 1);
    let g = coloned(a.stack.last(), ts[i + 1].span).0;
    assert(g == f);
    let b = StateV { stack: a.stack.drop_last().push(f), ..a };
    assert(step(a, ts, i + 1) == StepV::Next(b, i + 2));
    step_goes(a, ts, i + 1, b, i + 2);
    assert(b.stack[0] == f);
    b
}

/// The annotations of a dict that waits for nothing are closed: there are none.
proof fn closes_off(s: StateV, fs: Seq<(Text, WrittenV)>, span: SpanV, ts: Seq<TokV>, i: int) -> (t:
    StateV)
    requires
        reading(s, fs, None),
    ensures
        closed_off(s, span, ts, i) == StepV::Next(t, i + 1),
        reading(t, fs, None),
{
    let chained = is_immediate_at(ts, i + 1);
    assert(s.stack.last() == s.stack[0]);
    let d = drained(s.stack, s.items, chained);
    StateV {
        last: Some(span),
        node: drained_node(s.stack, s.items, chained, s.node),
        ..with_placed(s, d)
    }
}

proof fn literal_is_read(
    s: StateV,
    ts: Seq<TokV>,
    i: int,
    fs: Seq<(Text, WrittenV)>,
    f: (Text, WrittenV),
) -> (t: StateV)
    requires
        reading(s, fs, Some(f.0)),
        !named(fs, f.0),
        0 <= i,
        i + 1 < ts.len(),
        !(ts[i].tok is EscapedRef),
        literal_node(ts[i]) is Some,
        literal_node(ts[i])->0.expr == written_expr(f.1),
        ts[i + 1].tok is Identifier || ts[i + 1].tok is CloseBracket,
    ensures
        goes_to(s, ts, i, t, i + 1),
        reading(t, fs.push(f), None),
{
    reveal(step);
    reveal(literal_step);
    let node = literal_node(ts[i])->0;
    let span = ts[i].span;
    assert(next_horizontal(ts, i + 1) == i + 1);
    value_is_put(s, fs, f, node);
    let p = placed(s.stack, s.items, node);
    let t = closes_off(with_node(s, p, node), fs.push(f), span, ts, i);
    assert(step(s, ts, i) == StepV::Next(t, i + 1));
    step_goes(s, ts, i, t, i + 1);
    t
}

proof fn empty_is_read(
    s: StateV,
    ts: Seq<TokV>,
    i: int,
    fs: Seq<(Text, WrittenV)>,
    f: (Text, WrittenV),
) -> (t: StateV)
    requires
        reading(s, fs, Some(f.0)),
        !named(fs, f.0),
        f.1 is Empty,
        0 <= i,
        i + 1 < ts.len(),
        ts[i].tok is OpenBracket,
        ts[i + 1].tok is CloseBracket,
    ensures
        goes_to(s, ts, i, t, i + 2),
        reading(t, fs.push(f), None),
{
    reveal(step);
    reveal(open_step);
    reveal(close_step);
    assert(next_significant(ts, i + 1) == i + 1);
    let inner = dict_frame(ts[i].span);
    let a = pushed(s, inner);
    assert(s.stack.last() == s.stack[0]);
    assert(step(s, ts, i) == StepV::Next(a, i + 1));
    step_goes(s, ts, i, a, i + 1);
    let span = ts[i + 1].span;
    let popped = StateV {
        stack: a.stack.drop_last(),
        popped: Some((form_name(inner), opened_at(inner))),
        ..a
    };
    assert(a.stack.last() == inner);
    assert(popped.stack =~= s.stack);
    let node = NodeV {
        expr: ExprV::Dict(respan(Seq::empty())),
        span: form_span(ts[i].span, span),
    };
    assert(respan(Seq::empty()) =~= Seq::<EntryV>::empty());
    value_is_put(popped, fs, f, node);
    let p = placed(popped.stack, popped.items, node);
    let c = with_node(popped, p, node);
    assert(closed(popped, inner, span) == c);
    let t = closes_off(c, fs.push(f), span, ts, i + 1);
    assert(step(a, ts, i + 1) == StepV::Next(t, i + 2));
    step_goes(a, ts, i + 1, t, i + 2);
    t
}

proof fn field_is_read(s: StateV, ts: Seq<TokV>, fs: Seq<(Text, WrittenV)>, k: int) -> (t: StateV)
    requires
        readable_fields(fs),
        dict_tokens(ts, fs),
        0 <= k < fs.len(),
        reading(s, fs.take(k), None),
    ensures
        goes_to(s, ts, field_place(fs, k), t, field_place(fs, k + 1)),
        reading(t, fs.take(k + 1), None),
{
    let f = fs[k];
    let i = field_place(fs, k);
    assert(plain_name(f.0) && readable(f.1));
    field_tokens(ts, fs, k);
    value_is_token(f.1);
    assert(ts[i + 0].tok == line_token(field_kinds(f)[0]));
    assert(ts[i + 1].tok == line_token(field_kinds(f)[1]));
    assert(field_kinds(f)[2] == value_kinds(f.1)[0]);
    assert(ts[i + 2].tok == line_token(field_kinds(f)[2]));
    let a = key_is_read(s, ts, i, fs.take(k), f.0);
    assert(!named(fs.take(k), f.0)) by {
        if named(fs.take(k), f.0) {
            let j = choose|j: int| 0 <= j < k && (#[trigger] fs.take(k)[j]).0 == f.0;
            assert(fs[j].0 != fs[k].0);
        }
    }
    assert(fs.take(k).push(f) =~= fs.take(k + 1));
    match f.1 {
        WrittenV::Empty => {
            assert(field_kinds(f)[3] == value_kinds(f.1)[1]);
            assert(ts[i + 3].tok == line_token(field_kinds(f)[3]));
            empty_is_read(a, ts, i + 2, fs.take(k), f)
        },
        _ => {
            behind_field(ts, fs, k);
            literal_is_read(a, ts, i + 2, fs.take(k), f)
        },
    }
}

/// What stands behind a field: the name of the next, or the bracket.
proof fn behind_field(ts: Seq<TokV>, fs: Seq<(Text, WrittenV)>, k: int)
    requires
        readable_fields(fs),
        dict_tokens(ts, fs),
        0 <= k < fs.len(),
    ensures
        ({
            let t = ts[field_place(fs, k + 1)].tok;
            t is Identifier || t is CloseBracket
        }),
{
    field_tokens(ts, fs, k);
    if k + 1 < fs.len() {
        field_tokens(ts, fs, k + 1);
        assert(plain_name(fs[k + 1].0));
        let j = field_place(fs, k + 1);
        assert(ts[j + 0].tok == line_token(field_kinds(fs[k + 1])[0]));
    } else {
        assert(fs.take(k + 1) =~= fs);
        assert(dict_kinds(fs)[field_place(fs, k + 1)] == KindV::Close);
    }
}

proof fn fields_are_read(s: StateV, ts: Seq<TokV>, fs: Seq<(Text, WrittenV)>, k: int) -> (t: StateV)
    requires
        readable_fields(fs),
        dict_tokens(ts, fs),
        0 <= k <= fs.len(),
        reading(s, Seq::empty(), None),
    ensures
        goes_to(s, ts, 1, t, field_place(fs, k)),
        reading(t, fs.take(k), None),
    decreases k,
{
    if k == 0 {
        assert(fs.take(0) =~= Seq::empty());
        s
    } else {
        let t = fields_are_read(s, ts, fs, k - 1);
        field_is_read(t, ts, fs, k - 1)
    }
}

/// Whether an output is one document with one item, a dict whose entries are what fields are read
/// as, and nothing is reported.
pub open spec fn one_dict(o: OutputV, fs: Seq<(Text, WrittenV)>) -> bool {
    &&& o.diagnostics.len() == 0
    &&& o.documents.len() == 1
    &&& o.documents[0].header.len() == 0
    &&& o.documents[0].items.len() == 1
    &&& o.documents[0].items[0] matches ItemV::Expr(n) && (n.expr matches ExprV::Dict(entries)
        && entries_read(entries, fs))
}

proof fn dict_is_closed(s: StateV, ts: Seq<TokV>, fs: Seq<(Text, WrittenV)>)
    requires
        reading(s, fs, None),
        fs.len() > 0,
        ts.len() > 0,
        ts.last().tok is CloseBracket,
    ensures
        outcome(s, ts, ts.len() - 1) matches Ok(o) && one_dict(o, fs),
{
    reveal(step);
    reveal(close_step);
    let i = ts.len() - 1;
    let span = ts[i].span;
    let f = s.stack[0];
    assert(s.stack.last() == f);
    let popped = StateV {
        stack: s.stack.drop_last(),
        popped: Some((form_name(f), opened_at(f))),
        ..s
    };
    assert(popped.stack =~= Seq::empty());
    match f {
        FrameV::Dict { entries, span_start, .. } => {
            let after = respan(entries);
            assert forall|k: int| 0 <= k < fs.len() implies entry_reads(
                #[trigger] after[k],
                fs[k],
            ) by {
                assert(entry_reads(entries[k], fs[k]));
            }
            assert(entry_reads(after[0], fs[0]));
            let node = NodeV { expr: ExprV::Dict(after), span: form_span(span_start, span) };
            let p = placed(popped.stack, popped.items, node);
            let c = with_node(popped, p, node);
            assert(closed(popped, f, span) == c);
            let t = StateV {
                last: Some(span),
                node: drained_node(c.stack, c.items, is_immediate_at(ts, i + 1), c.node),
                ..c
            };
            assert(step(s, ts, i) == StepV::Next(t, i + 1));
            step_goes(s, ts, i, t, i + 1);
            let o = outcome(t, ts, i + 1)->Ok_0;
            assert(o.documents[0].items[0] == ItemV::Expr(node));
        },
        _ => {},
    }
}

proof fn dict_parses(fs: Seq<(Text, WrittenV)>, file: Text)
    requires
        readable_fields(fs),
        fs.len() > 0,
    ensures
        parsed(dict_text(fs), file) matches Ok(o) && one_dict(o, fs),
{
    reveal(step);
    reveal(open_step);
    dict_has_tokens(fs, file);
    let ts = tokens_of(dict_text(fs), file)->Ok_0;
    let n = fs.len() as int;
    field_tokens(ts, fs, 0);
    assert(fs.take(0) =~= Seq::empty());
    assert(plain_name(fs[0].0));
    assert(ts[0].tok == line_token(dict_kinds(fs)[0]));
    assert(ts[1int + 0].tok == line_token(field_kinds(fs[0])[0]));
    assert(ts[1int + 1].tok == line_token(field_kinds(fs[0])[1]));
    assert(next_significant(ts, 1) == 1);
    assert(next_horizontal(ts, 2) == 2);
    let s = pushed(start_state(), dict_frame(ts[0].span));
    assert(step(start_state(), ts, 0) == StepV::Next(s, 1));
    step_goes(start_state(), ts, 0, s, 1);
    let t = fields_are_read(s, ts, fs, n);
    assert(fs.take(n) =~= fs);
    assert(dict_kinds(fs)[ts.len() - 1] == KindV::Close);
    assert(ts[ts.len() - 1].tok == line_token(dict_kinds(fs)[ts.len() - 1]));
    assert(field_place(fs, n) == ts.len() - 1);
    dict_is_closed(t, ts, fs);
}

proof fn no_keyword(name: Text)
    requires
        name.len() != 3,
        name.len() != 4,
    ensures
        name != "let"@,
        name != "case"@,
{
    reveal_strlit("let");
    reveal_strlit("case");
}

proof fn fields_are_readable(r: RecordV)
    requires
        writable(r),
    ensures
        readable_fields(written_fields(r)),
{
    let fs = written_fields(r);
    assert(fs.len() == 14);
    assert(plain_name(fs[0].0) && fs[0].0.len() == 2) by {
        reveal_strlit("id");
        no_keyword("id"@);
    }
    assert(plain_name(fs[1].0) && fs[1].0.len() == 18) by {
        reveal_strlit("materialize-parent");
        no_keyword("materialize-parent"@);
    }
    assert(plain_name(fs[2].0) && fs[2].0.len() == 13) by {
        reveal_strlit("create-parent");
        no_keyword("create-parent"@);
    }
    assert(plain_name(fs[3].0) && fs[3].0.len() == 14) by {
        reveal_strlit("create-time-us");
        no_keyword("create-time-us"@);
    }
    assert(plain_name(fs[4].0) && fs[4].0.len() == 11) by {
        reveal_strlit("source-file");
        no_keyword("source-file"@);
    }
    assert(plain_name(fs[5].0) && fs[5].0.len() == 12) by {
        reveal_strlit("source-start");
        no_keyword("source-start"@);
    }
    assert(plain_name(fs[6].0) && fs[6].0.len() == 10) by {
        reveal_strlit("source-end");
        no_keyword("source-end"@);
    }
    assert(plain_name(fs[7].0) && fs[7].0.len() == 11) by {
        reveal_strlit("source-text");
        no_keyword("source-text"@);
    }
    assert(plain_name(fs[8].0) && fs[8].0.len() == 7) by {
        reveal_strlit("builtin");
        no_keyword("builtin"@);
    }
    assert(plain_name(fs[9].0) && fs[9].0.len() == 14) by {
        reveal_strlit("origin-builtin");
        no_keyword("origin-builtin"@);
    }
    assert(plain_name(fs[10].0) && fs[10].0.len() == 8) by {
        reveal_strlit("start-us");
        no_keyword("start-us"@);
    }
    assert(plain_name(fs[11].0) && fs[11].0.len() == 6) by {
        reveal_strlit("end-us");
        no_keyword("end-us"@);
    }
    assert(plain_name(fs[12].0) && fs[12].0.len() == 8) by {
        reveal_strlit("stall-us");
        no_keyword("stall-us"@);
    }
    assert(plain_name(fs[13].0) && fs[13].0.len() == 10) by {
        reveal_strlit("stall-kind");
        no_keyword("stall-kind"@);
    }
    assert(fs[3].0 != fs[9].0) by {
        reveal_strlit("create-time-us");
        reveal_strlit("origin-builtin");
        assert(fs[3].0[0] != fs[9].0[0]);
    }
    assert(fs[4].0 != fs[7].0) by {
        reveal_strlit("source-file");
        reveal_strlit("source-text");
        assert(fs[4].0[7] != fs[7].0[7]);
    }
    assert(fs[6].0 != fs[13].0) by {
        reveal_strlit("source-end");
        reveal_strlit("stall-kind");
        assert(fs[6].0[1] != fs[13].0[1]);
    }
    assert(fs[10].0 != fs[12].0) by {
        reveal_strlit("start-us");
        reveal_strlit("stall-us");
        assert(fs[10].0[3] != fs[12].0[3]);
    }
    assert forall|k: int| 0 <= k < fs.len() implies plain_name((#[trigger] fs[k]).0) && readable(
        fs[k].1,
    ) by {
        assert(readable(fs[k].1));
    }
}

/// The line of a record is a source of one dict: it parses without a report, and its entries are
/// the fields of the record, in their order and with their values.
#[verifier::rlimit(80)]
pub proof fn record_parses(r: RecordV, file: Text)
    requires
        writable(r),
    ensures
        parsed(record_line(r), file) matches Ok(o) && one_dict(o, written_fields(r)),
{
    let fs = written_fields(r);
    line_is_dict(r);
    fields_are_readable(r);
    dict_parses(fs, file);
}

/// The value that stands for what is written of a field: a number beyond the signed ones wraps.
pub open spec fn written_value(w: WrittenV) -> ValueV {
    match w {
        WrittenV::Number(n) => ValueV::Int(
            (if n <= i64::MAX {
                n
            } else {
                n - 0x1_0000_0000_0000_0000
            }) as i64,
        ),
        WrittenV::Str(t) => ValueV::Str(t),
        WrittenV::Empty => ValueV::Dict(Seq::empty()),
    }
}

proof fn entries_in_order(fields: Seq<(Text, ValueV)>, base: int)
    requires
        forall|j: int, k: int|
            0 <= j < k < fields.len() ==> (#[trigger] fields[j]).0 != (#[trigger] fields[k]).0,
    ensures
        field_entries(fields, base).len() == fields.len(),
        forall|k: int|
            0 <= k < fields.len() ==> #[trigger] field_entries(fields, base)[k] == (
                fields[k].0,
                base + k,
            ),
    decreases fields.len(),
{
    if fields.len() > 0 {
        let less = fields.drop_last();
        assert forall|j: int, k: int| 0 <= j < k < less.len() implies (#[trigger] less[j]).0 != (
        #[trigger] less[k]).0 by {
            assert(fields[j].0 != fields[k].0);
        }
        entries_in_order(less, base);
        let es = field_entries(less, base);
        crate::header::key_index_finds(es, fields.last().0);
        if crate::header::key_index(es, fields.last().0) is Some {
            let i = crate::header::key_index(es, fields.last().0)->0;
            assert(es[i] == (less[i].0, base + i));
            assert(fields[i].0 != fields[fields.len() - 1].0);
        }
    }
}

/// The dict of a record has the fields that the line of the record has: the same keys in the same
/// order, each with the value that is written for it.
pub proof fn record_value_goes_with_line(r: RecordV, arena: Seq<ThunkV>)
    requires
        writable(r),
    ensures
        ({
            let (after, v) = record_value(r, arena);
            let fs = written_fields(r);
            &&& after.take(arena.len() as int) == arena
            &&& v matches ValueV::Dict(es) && es.len() == fs.len() && forall|k: int|
                0 <= k < fs.len() ==> (#[trigger] es[k]).0 == fs[k].0 && 0 <= es[k].1 < after.len()
                    && after[es[k].1].value == written_value(fs[k].1)
        }),
{
    let fs = written_fields(r);
    let fields = record_fields(r);
    let base = arena.len() as int;
    let (after, v) = record_value(r, arena);
    fields_are_readable(r);
    assert(fields.len() == fs.len());
    assert forall|k: int| 0 <= k < fs.len() implies (#[trigger] fields[k]).0 == fs[k].0
        && fields[k].1 == written_value(fs[k].1) by {}
    assert forall|j: int, k: int| 0 <= j < k < fields.len() implies (#[trigger] fields[j]).0 != (
    #[trigger] fields[k]).0 by {
        assert(fs[j].0 != fs[k].0);
    }
    entries_in_order(fields, base);
    assert(after.take(base) =~= arena);
    let es = v->Dict_0;
    assert forall|k: int| 0 <= k < fs.len() implies (#[trigger] es[k]).0 == fs[k].0 && 0 <= es[k].1
        < after.len() && after[es[k].1].value == written_value(fs[k].1) by {
        assert(es[k] == (fields[k].0, base + k));
        assert(fields[k].0 == fs[k].0);
    }
}

} // verus!
