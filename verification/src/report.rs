//! Diagnostics as text, with the line of the source that they are about.
use crate::ast::Span;
use crate::diagnostic::{DiagV, TypeDiagnostic};
use crate::lexer::line_col;
use crate::model::{SpanV, Text};
use crate::scan::{find_line_end, line_end, line_end_bounds};
use crate::text::{chars_of, decimal, decimal_text, slice_text};
use vstd::prelude::*;

verus! {

/// Line `n` of a text, counted from one, whose lines from place `i` on are looked at. A carriage
/// return before the line feed does not belong to the line.
pub open spec fn nth_line(s: Text, i: int, n: nat) -> Option<Text>
    decreases n,
{
    if n == 0 || i >= s.len() {
        None
    } else if n == 1 {
        Some(s.subrange(i, text_end(s, i)))
    } else {
        nth_line(s, line_end(s, i) + 1, (n - 1) as nat)
    }
}

/// The end of the text of the line that starts at place `i`.
pub open spec fn text_end(s: Text, i: int) -> int {
    let end = line_end(s, i);
    if i < end < s.len() && s[end - 1] == '\r' {
        end - 1
    } else {
        end
    }
}

/// A character a number of times.
pub open spec fn repeated(c: char, n: int) -> Text {
    Seq::new(
        if n < 0 {
            0
        } else {
            n as nat
        },
        |i: int| c,
    )
}

/// How many characters of its first line a region covers, at least one.
pub open spec fn underlined(span: SpanV, line_length: int) -> int {
    let end = if span.start_line == span.end_line {
        span.end_col as int
    } else {
        line_length + 1
    };
    if end > span.start_col {
        end - span.start_col
    } else {
        1
    }
}

/// The line that a region starts on, with the region underlined.
pub open spec fn span_snippet(source: Text, span: SpanV) -> Option<Text> {
    match nth_line(source, 0, span.start_line as nat) {
        Some(line) => Some(
            decimal(span.start_line as nat) + " | "@ + line + "\n"@ + repeated(
                ' ',
                decimal(span.start_line as nat).len() as int,
            ) + " | "@ + repeated(' ', span.start_col - 1) + repeated(
                '^',
                underlined(span, line.len() as int),
            ) + "\n"@,
        ),
        None => None,
    }
}

/// The notes of a diagnostic, a line each.
pub open spec fn note_lines(notes: Seq<Text>) -> Text
    decreases notes.len(),
{
    if notes.len() == 0 {
        Seq::empty()
    } else {
        note_lines(notes.drop_last()) + "  = note: "@ + notes.last() + "\n"@
    }
}

/// The help line of a diagnostic.
pub open spec fn help_line(help: Option<Text>) -> Text {
    match help {
        Some(h) => "  = help: "@ + h + "\n"@,
        None => Seq::empty(),
    }
}

/// The snippet of a diagnostic, below a line that sets it off.
pub open spec fn snippet_lines(source: Text, span: SpanV) -> Text {
    match span_snippet(source, span) {
        Some(snippet) => "  |\n"@ + snippet,
        None => Seq::empty(),
    }
}

/// A diagnostic as text.
pub open spec fn diagnostic_text(d: DiagV, source: Text, file_name: Text) -> Text {
    if d.spans.len() == 0 {
        "error: "@ + d.message
    } else {
        let span = d.spans[0].0;
        "error: "@ + d.message + "\n"@ + " --> "@ + file_name + ":"@ + decimal(
            span.start_line as nat,
        ) + ":"@ + decimal(span.start_col as nat) + "\n"@ + snippet_lines(source, span)
            + note_lines(d.notes) + help_line(d.help)
    }
}

fn find_line(chars: &Vec<char>, n: u32) -> (r: Option<String>)
    ensures
        r.deep_view() == nth_line(chars@, 0, n as nat),
{
    let len: usize = chars.len();
    let mut left: u32 = n;
    let mut i: usize = 0;
    while i < len && left > 1
        invariant
            i <= len,
            len == chars@.len(),
            nth_line(chars@, i as int, left as nat) == nth_line(chars@, 0, n as nat),
        decreases left,
    {
        let end: usize = find_line_end(chars, i);
        left = left - 1;
        if end >= len {
            assert(nth_line(chars@, end + 1, left as nat) is None);
            return None;
        }
        i = end + 1;
    }
    if left == 0 || i >= len {
        return None;
    }
    let end: usize = find_line_end(chars, i);
    let stop: usize = if i < end && end < len && chars[end - 1] == '\r' {
        end - 1
    } else {
        end
    };
    Some(slice_text(chars, i, stop))
}

fn push_repeated(out: &mut String, c: char, n: u128)
    ensures
        final(out)@ == old(out)@ + repeated(c, n as int),
{
    let ghost start = out@;
    let mut i: u128 = 0;
    assert(start =~= start + repeated(c, 0));
    while i < n
        invariant
            i <= n,
            out@ == start + repeated(c, i as int),
        decreases n - i,
    {
        out.push(c);
        i = i + 1;
        assert(out@ =~= start + repeated(c, i as int));
    }
}

/// The line that a region starts on, with the region underlined; `None` where the source has no
/// such line.
pub fn render_span_snippet(source: &str, span: &Span) -> (r: Option<String>)
    ensures
        r.deep_view() == span_snippet(source@, span.deep_view()),
{
    let chars: Vec<char> = chars_of(source);
    match find_line(&chars, span.start_line) {
        None => None,
        Some(line) => {
            let number: String = decimal_text(span.start_line as u64);
            let pad: usize = chars_of(number.as_str()).len();
            let line_length: usize = chars_of(line.as_str()).len();
            let end: u128 = if span.start_line == span.end_line {
                span.end_col as u128
            } else {
                line_length as u128 + 1
            };
            let width: u128 = if end > span.start_col as u128 {
                end - span.start_col as u128
            } else {
                1
            };
            let indent: u128 = if span.start_col > 0 {
                (span.start_col - 1) as u128
            } else {
                0
            };
            assert(repeated(' ', indent as int) =~= repeated(' ', span.start_col - 1));
            let mut out: String = number;
            out.append(" | ");
            out.append(line.as_str());
            out.append("\n");
            push_repeated(&mut out, ' ', pad as u128);
            out.append(" | ");
            push_repeated(&mut out, ' ', indent);
            push_repeated(&mut out, '^', width);
            out.append("\n");
            Some(out)
        },
    }
}

/// A parse diagnostic as text: the message, the place, the line of the source with the region
/// underlined, the notes and the help line.
pub fn format_parse_error(err: &TypeDiagnostic, source: &str, file_name: &str) -> (r: String)
    ensures
        r@ == diagnostic_text(err.deep_view(), source@, file_name@),
{
    broadcast use crate::model::group_models;

    let mut out: String = "error: ".to_owned();
    out.append(err.message.as_str());
    if err.spans.len() == 0 {
        return out;
    }
    assert(err.spans.deep_view()[0] == err.spans@[0].deep_view());
    let span: &Span = &err.spans[0].0;
    out.append("\n");
    out.append(" --> ");
    out.append(file_name);
    out.append(":");
    out.append(decimal_text(span.start_line as u64).as_str());
    out.append(":");
    out.append(decimal_text(span.start_col as u64).as_str());
    out.append("\n");
    let mut snippet: String = String::new();
    match render_span_snippet(source, span) {
        Some(text) => {
            snippet = "  |\n".to_owned();
            snippet.append(text.as_str());
        },
        None => {},
    }
    assert(snippet@ == snippet_lines(source@, span.deep_view()));
    out.append(snippet.as_str());
    let ghost all = err.notes.deep_view();
    let mut notes: String = String::new();
    let mut i: usize = 0;
    while i < err.notes.len()
        invariant
            i <= err.notes@.len(),
            all == err.notes.deep_view(),
            notes@ == note_lines(all.take(i as int)),
        decreases err.notes@.len() - i,
    {
        assert(all[i as int] == err.notes@[i as int]@);
        assert(all.take(i + 1).drop_last() =~= all.take(i as int));
        notes.append("  = note: ");
        notes.append(err.notes[i].as_str());
        notes.append("\n");
        i = i + 1;
    }
    assert(all.take(i as int) =~= all);
    out.append(notes.as_str());
    let mut help: String = String::new();
    match &err.help {
        Some(h) => {
            help = "  = help: ".to_owned();
            help.append(h.as_str());
            help.append("\n");
        },
        None => {},
    }
    assert(help@ == help_line(err.deep_view().help));
    out.append(help.as_str());
    out
}

proof fn line_end_is_first(s: Text, i: int)
    requires
        0 <= i <= s.len(),
    ensures
        forall|k: int| i <= k < line_end(s, i) ==> #[trigger] s[k] != '\n',
        line_end(s, i) < s.len() ==> s[line_end(s, i)] == '\n',
    decreases s.len() - i,
{
    if i < s.len() && s[i] != '\n' {
        line_end_is_first(s, i + 1);
    }
}

/// On one line the column counts the characters from the start of the line.
proof fn columns_count(s: Text, p: int, i: int)
    requires
        0 <= p <= i <= s.len(),
        line_col(s, p).1 == 1,
        forall|k: int| p <= k < i ==> #[trigger] s[k] != '\n',
    ensures
        line_col(s, i) == (line_col(s, p).0, 1 + i - p),
    decreases i - p,
{
    if p < i {
        columns_count(s, p, i - 1);
    }
}

proof fn line_from_holds(s: Text, p: int, i: int)
    requires
        0 <= p <= i < s.len(),
        line_col(s, p).1 == 1,
        s[i] != '\n',
        !(s[i] == '\r' && i + 1 < s.len() && s[i + 1] == '\n'),
    ensures
        line_col(s, i).0 >= line_col(s, p).0,
        nth_line(s, p, (line_col(s, i).0 - line_col(s, p).0 + 1) as nat) matches Some(line)
            && 0 < line_col(s, i).1 <= line.len() && line[line_col(s, i).1 - 1] == s[i],
    decreases i - p,
{
    let e = line_end(s, p);
    line_end_bounds(s, p);
    line_end_is_first(s, p);
    if i < e {
        columns_count(s, p, i);
    } else {
        columns_count(s, p, e);
        assert(line_col(s, e + 1) == (line_col(s, p).0 + 1, 1int));
        line_from_holds(s, e + 1, i);
    }
}

/// The line that is shown for a place is the one that the place is on: the character at that column
/// of it is the character of the source. (The line feed, and a carriage return before it, are not
/// part of the line.)
pub proof fn line_holds_the_place(s: Text, i: int)
    requires
        0 <= i < s.len(),
        s[i] != '\n',
        !(s[i] == '\r' && i + 1 < s.len() && s[i + 1] == '\n'),
    ensures
        nth_line(s, 0, line_col(s, i).0 as nat) matches Some(line) && 0 < line_col(s, i).1
            <= line.len() && line[line_col(s, i).1 - 1] == s[i],
{
    line_from_holds(s, 0, i);
}

proof fn line_from_is_one(s: Text, p: int, n: nat, k: int)
    requires
        0 <= p,
    ensures
        nth_line(s, p, n) matches Some(line) ==> (0 <= k < line.len() ==> line[k] != '\n'),
    decreases n,
{
    if n > 0 && p < s.len() {
        line_end_bounds(s, p);
        line_end_is_first(s, p);
        if n > 1 {
            line_from_is_one(s, line_end(s, p) + 1, (n - 1) as nat, k);
        }
    }
}

/// A line holds no line feed.
pub proof fn line_is_one_line(s: Text, n: nat, k: int)
    ensures
        nth_line(s, 0, n) matches Some(line) ==> (0 <= k < line.len() ==> line[k] != '\n'),
{
    line_from_is_one(s, 0, n, k);
}

/// What is shown of a region on one line: every character of the line stands at its column, the
/// carets stand below the characters of the region, and only spaces below those before it.
pub proof fn carets_mark_the_region(s: Text, span: SpanV, i: int)
    requires
        0 <= i < s.len(),
        s[i] != '\n',
        !(s[i] == '\r' && i + 1 < s.len() && s[i + 1] == '\n'),
        line_col(s, i).0 == span.start_line,
        span.end_line == span.start_line,
        1 <= span.start_col < span.end_col,
    ensures
        span_snippet(s, span) matches Some(text) && nth_line(s, 0, span.start_line as nat) matches Some(
            line,
        ) && {
            let col = line_col(s, i).1;
            let margin = decimal(span.start_line as nat).len() as int + 3;
            let below = margin + line.len() + 1 + margin;
            &&& text[margin + col - 1] == s[i]
            &&& text[margin + line.len()] == '\n'
            &&& col < span.start_col ==> text[below + col - 1] == ' '
            &&& span.start_col <= col < span.end_col ==> text[below + col - 1] == '^'
            &&& text.len() == below + span.end_col
            &&& text.last() == '\n'
        },
{
    line_holds_the_place(s, i);
    reveal_strlit(" | ");
    reveal_strlit("\n");
    let line = nth_line(s, 0, span.start_line as nat)->0;
    let number = decimal(span.start_line as nat);
    let col = line_col(s, i).1;
    let above = number + " | "@ + line + "\n"@;
    let pad = repeated(' ', number.len() as int) + " | "@;
    let marks = repeated(' ', span.start_col - 1) + repeated('^', span.end_col - span.start_col);
    let text = span_snippet(s, span)->0;
    assert(text =~= above + pad + marks + "\n"@);
    let margin = number.len() as int + 3;
    let below = margin + line.len() + 1 + margin;
    assert(above.len() + pad.len() == below);
    assert(text[margin + col - 1] == above[margin + col - 1]);
    assert(text[margin + line.len()] == above[margin + line.len()]);
    if col < span.end_col {
        assert(text[below + col - 1] == marks[col - 1]);
    }
}

/// A region that goes on behind its first line is underlined up to the end of that line, and at
/// least one caret is shown.
pub proof fn long_regions_end_with_the_line(s: Text, span: SpanV)
    requires
        span.start_line < span.end_line,
        1 <= span.start_col,
    ensures
        nth_line(s, 0, span.start_line as nat) matches Some(line) ==> span_snippet(s, span) matches Some(
            text,
        ) && {
            let below = 2 * (decimal(span.start_line as nat).len() + 3) + line.len() + 1;
            &&& text[below + span.start_col - 1] == '^'
            &&& span.start_col <= line.len() ==> text.len() == below + line.len() + 1
            &&& span.start_col > line.len() ==> text.len() == below + span.start_col + 1
        },
        nth_line(s, 0, span.start_line as nat) is None ==> span_snippet(s, span) is None,
{
    reveal_strlit(" | ");
    reveal_strlit("\n");
    if nth_line(s, 0, span.start_line as nat) is Some {
        let line = nth_line(s, 0, span.start_line as nat)->0;
        let number = decimal(span.start_line as nat);
        let above = number + " | "@ + line + "\n"@ + repeated(' ', number.len() as int) + " | "@;
        let carets = repeated('^', underlined(span, line.len() as int));
        let text = span_snippet(s, span)->0;
        let indent = repeated(' ', span.start_col - 1);
        assert(text =~= above + indent + carets + "\n"@);
        assert(text[above.len() as int + indent.len()] == carets[0]);
    }
}

/// A report starts with its message. Where it has a region, the second line names the file and the
/// place, and a report without notes and help ends with what is shown of the source.
pub proof fn report_says_what_and_where(d: DiagV, s: Text, file: Text)
    requires
        d.spans.len() > 0,
    ensures
        ({
            let text = diagnostic_text(d, s, file);
            let start = "error: "@ + d.message + "\n --> "@ + file + ":"@ + decimal(
                d.spans[0].0.start_line as nat,
            ) + ":"@ + decimal(d.spans[0].0.start_col as nat) + "\n"@;
            &&& start.len() <= text.len()
            &&& text.take(start.len() as int) == start
            &&& d.notes.len() == 0 && d.help is None ==> match span_snippet(s, d.spans[0].0) {
                Some(shown) => text == start + "  |\n"@ + shown,
                None => text == start,
            }
            &&& d.help matches Some(help) ==> {
                let end = "  = help: "@ + help + "\n"@;
                text.len() >= end.len() && text.skip(text.len() - end.len()) == end
            }
        }),
{
    reveal_strlit("\n --> ");
    reveal_strlit("\n");
    reveal_strlit(" --> ");
    assert("\n --> "@ =~= "\n"@ + " --> "@);
    let span = d.spans[0].0;
    let place = decimal(span.start_line as nat) + ":"@ + decimal(span.start_col as nat) + "\n"@;
    let start = "error: "@ + d.message + "\n --> "@ + file + ":"@ + decimal(
        span.start_line as nat,
    ) + ":"@ + decimal(span.start_col as nat) + "\n"@;
    let text = diagnostic_text(d, s, file);
    let shown = snippet_lines(s, span);
    let notes = note_lines(d.notes);
    let end = help_line(d.help);
    assert(text =~= start + shown + notes + end);
    assert(text.take(start.len() as int) =~= start);
    assert(text.skip(text.len() - end.len()) =~= end);
    assert(d.notes.len() == 0 ==> notes =~= Seq::<char>::empty());
    if d.notes.len() == 0 && d.help is None {
        match span_snippet(s, span) {
            Some(x) => {
                assert(text =~= start + "  |\n"@ + x);
            },
            None => {
                assert(text =~= start);
            },
        }
    }
}

/// Every note has a line of its own, in the order of the notes, before the help line.
pub proof fn notes_follow_in_order(notes: Seq<Text>, note: Text)
    ensures
        note_lines(notes.push(note)) == note_lines(notes) + "  = note: "@ + note + "\n"@,
        note_lines(Seq::empty()) == Seq::<char>::empty(),
{
    assert(notes.push(note).drop_last() =~= notes);
}

} // verus!
