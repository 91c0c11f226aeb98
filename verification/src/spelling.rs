//! How lexemes are spelled: a text that is put together from lexemes, with spaces between them, is
//! split into these lexemes again.
use crate::model::Text;
use crate::scan::{
    closing_quotes, delimiter, digit, digits_end, found_at, lexemes, lexemes_from, line_end,
    quotes_at, word_end, FoundV, KindV, LexemeV, ScanErrorV,
};
use vstd::prelude::*;

verus! {

/// A lexeme with the number of spaces before it.
pub struct MarkV {
    pub kind: KindV,
    pub gap: nat,
}

/// How a lexeme is spelled.
pub open spec fn spelling(kind: KindV) -> Text {
    match kind {
        KindV::Open => seq!['['],
        KindV::Close => seq![']'],
        KindV::Colon => seq![':'],
        KindV::Semicolon => seq![';'],
        KindV::Newline => seq!['\n'],
        KindV::Pipe => seq!['|'],
        KindV::At => seq!['@'],
        KindV::Dot => seq!['.'],
        KindV::Ellipsis => seq!['.', '.', '.'],
        KindV::DocSeparator => "---"@,
        KindV::Comment(s) => seq!['#'] + s,
        KindV::Str { prefix, delimiter, content } => prefix + delimiter + content + delimiter,
        KindV::Number { text, .. } => text,
        KindV::Word(s) => s,
        KindV::Ref(s) => seq!['$'] + s,
    }
}

pub open spec fn spaces(n: nat) -> Text {
    Seq::new(n, |i: int| ' ')
}

/// The text that is put together from lexemes.
pub open spec fn spelled(ms: Seq<MarkV>) -> Text
    decreases ms.len(),
{
    if ms.len() == 0 {
        Seq::empty()
    } else {
        spelled(ms.drop_last()) + spaces(ms.last().gap) + spelling(ms.last().kind)
    }
}

/// Where a lexeme ends in the text.
pub open spec fn mark_end(ms: Seq<MarkV>, k: int) -> int {
    spelled(ms.take(k + 1)).len() as int
}

/// Where a lexeme starts in the text.
pub open spec fn mark_start(ms: Seq<MarkV>, k: int) -> int {
    (spelled(ms.take(k)).len() + ms[k].gap) as int
}

/// Whether a character can stand in a word.
pub open spec fn word_char(c: char) -> bool {
    &&& c != ' ' && c != '\t' && c != '\r' && c != '\n'
    &&& c != '[' && c != ']' && c != ':' && c != ';' && c != '#'
    &&& c != '"' && c != '@' && c != '.' && c != '|' && c != '$'
}

pub open spec fn digit_char(c: char) -> bool {
    '0' <= c <= '9'
}

pub open spec fn word_chars(s: Text) -> bool {
    forall|k: int| 0 <= k < s.len() ==> word_char(#[trigger] s[k])
}

pub open spec fn digit_chars(s: Text) -> bool {
    s.len() > 0 && forall|k: int| 0 <= k < s.len() ==> digit_char(#[trigger] s[k])
}

/// A word: it holds nothing that ends a word, and is neither a number nor a separator.
pub open spec fn plain_word(s: Text) -> bool {
    &&& s.len() > 0
    &&& word_chars(s)
    &&& !digit_char(s[0])
    &&& !(s[0] == '-' && s.len() > 1 && digit_char(s[1]))
    &&& s != "---"@
}

/// Digits, with a minus sign or none.
pub open spec fn whole_numeral(s: Text) -> bool {
    digit_chars(s) || (s.len() > 0 && s[0] == '-' && digit_chars(s.skip(1)))
}

/// Digits with a minus sign or none, a dot, and digits.
pub open spec fn decimal_numeral(s: Text) -> bool {
    exists|k: int|
        0 < k < s.len() && #[trigger] s[k] == '.' && whole_numeral(s.take(k)) && digit_chars(
            s.skip(k + 1),
        )
}

/// Whether a text can stand between quotation marks: those that it holds itself are escaped.
pub open spec fn quotable(s: Text) -> bool
    decreases s.len(),
{
    if s.len() == 0 {
        true
    } else if s[0] == '\\' {
        s.len() > 1 && quotable(s.skip(2))
    } else {
        s[0] != '"' && quotable(s.skip(1))
    }
}

pub open spec fn plain_quotes(s: Text) -> bool {
    s == seq!['"'] || s == seq!['"', '"', '"']
}

/// Whether a lexeme can be read in what is spelled.
pub open spec fn legible(kind: KindV) -> bool {
    match kind {
        KindV::Comment(s) => !s.contains('\n'),
        KindV::Str { prefix, delimiter, content } => {
            &&& prefix.len() > 0 ==> plain_word(prefix)
            &&& plain_quotes(delimiter)
            &&& quotable(content)
        },
        KindV::Number { text, fraction } => if fraction {
            decimal_numeral(text)
        } else {
            whole_numeral(text)
        },
        KindV::Word(s) => plain_word(s),
        KindV::Ref(s) => s.len() > 0 && word_chars(s),
        _ => true,
    }
}

/// Whether a lexeme may stand right behind a word, a number or a string.
pub open spec fn sharp(kind: KindV) -> bool {
    match kind {
        KindV::Open | KindV::Close | KindV::Colon | KindV::Semicolon | KindV::Newline => true,
        KindV::Pipe | KindV::At | KindV::Comment(_) => true,
        _ => false,
    }
}

/// Whether a lexeme can be told from the one before it.
pub open spec fn apart(kind: KindV, next: MarkV) -> bool {
    &&& kind is Dot ==> !(next.kind matches KindV::Number { fraction, .. } && fraction)
    &&& match kind {
        KindV::Word(_) | KindV::Ref(_) | KindV::DocSeparator | KindV::Str { .. } => next.gap > 0
            || sharp(next.kind) || next.kind is Dot,
        KindV::Number { .. } => next.gap > 0 || sharp(next.kind),
        KindV::Dot | KindV::Ellipsis => next.gap > 0 || !(next.kind is Dot || next.kind
            is Ellipsis),
        KindV::Comment(_) => next.gap == 0 && next.kind is Newline,
        _ => true,
    }
}

/// Whether the lexemes can be read in the text that is put together from them.
pub open spec fn readable(ms: Seq<MarkV>) -> bool {
    &&& forall|k: int| 0 <= k < ms.len() ==> legible((#[trigger] ms[k]).kind)
    &&& forall|k: int| 0 < k < ms.len() ==> apart(ms[k - 1].kind, #[trigger] ms[k])
}

/// A text stands at place `i` of a source.
pub open spec fn stands(src: Text, i: int, t: Text) -> bool {
    &&& 0 <= i
    &&& i + t.len() <= src.len()
    &&& forall|k: int| 0 <= k < t.len() ==> src[i + k] == #[trigger] t[k]
}

/// What may follow a lexeme.
spec fn stops(src: Text, e: int, kind: KindV) -> bool {
    e == src.len() || match kind {
        KindV::Word(_) | KindV::DocSeparator => !word_char(src[e]) && src[e] != '"',
        KindV::Ref(_) => !word_char(src[e]),
        KindV::Number { .. } => !digit_char(src[e]) && src[e] != '.',
        KindV::Str { .. } => src[e] != '"',
        KindV::Dot | KindV::Ellipsis => src[e] != '.',
        KindV::Comment(_) => src[e] == '\n',
        _ => true,
    }
}

proof fn stands_part(src: Text, i: int, a: Text, b: Text)
    requires
        stands(src, i, a + b),
    ensures
        stands(src, i, a),
        stands(src, i + a.len(), b),
{
    assert forall|k: int| 0 <= k < a.len() implies src[i + k] == #[trigger] a[k] by {
        assert(src[i + k] == (a + b)[k]);
    }
    assert forall|k: int| 0 <= k < b.len() implies src[i + a.len() + k] == #[trigger] b[k] by {
        assert(src[i + (a.len() + k)] == (a + b)[a.len() + k]);
    }
}

proof fn stands_is(src: Text, i: int, t: Text)
    requires
        stands(src, i, t),
    ensures
        src.subrange(i, i + t.len()) == t,
{
    assert forall|k: int| 0 <= k < t.len() implies src.subrange(i, i + t.len())[k] == t[k] by {
        assert(src[i + k] == t[k]);
    }
    assert(src.subrange(i, i + t.len()) =~= t);
}

proof fn word_ends(src: Text, i: int, e: int)
    requires
        0 <= i <= e <= src.len(),
        forall|k: int| i <= k < e ==> word_char(#[trigger] src[k]),
        e < src.len() ==> !word_char(src[e]),
    ensures
        word_end(src, i) == e,
    decreases e - i,
{
    if i < e {
        assert(word_char(src[i]));
        word_ends(src, i + 1, e);
    }
}

proof fn digits_stop(src: Text, i: int, e: int)
    requires
        0 <= i <= e <= src.len(),
        forall|k: int| i <= k < e ==> digit_char(#[trigger] src[k]),
        e < src.len() ==> !digit_char(src[e]),
    ensures
        digits_end(src, i) == e,
    decreases e - i,
{
    if i < e {
        assert(digit_char(src[i]));
        digits_stop(src, i + 1, e);
    }
}

proof fn line_stops(src: Text, i: int, e: int)
    requires
        0 <= i <= e <= src.len(),
        forall|k: int| i <= k < e ==> #[trigger] src[k] != '\n',
        e < src.len() ==> src[e] == '\n',
    ensures
        line_end(src, i) == e,
    decreases e - i,
{
    if i < e {
        line_stops(src, i + 1, e);
    }
}

proof fn word_is_found(src: Text, i: int, s: Text)
    requires
        stands(src, i, s),
        word_chars(s),
        i + s.len() < src.len() ==> !word_char(src[i + s.len()]),
    ensures
        word_end(src, i) == i + s.len(),
        src.subrange(i, i + s.len()) == s,
{
    assert forall|k: int| i <= k < i + s.len() implies word_char(#[trigger] src[k]) by {
        assert(src[i + (k - i)] == s[k - i]);
    }
    word_ends(src, i, i + s.len());
    stands_is(src, i, s);
}

proof fn digits_are_found(src: Text, i: int, s: Text)
    requires
        stands(src, i, s),
        digit_chars(s),
        i + s.len() < src.len() ==> !digit_char(src[i + s.len()]),
    ensures
        digits_end(src, i) == i + s.len(),
        digit(src[i]),
{
    assert forall|k: int| i <= k < i + s.len() implies digit_char(#[trigger] src[k]) by {
        assert(src[i + (k - i)] == s[k - i]);
    }
    assert(src[i + 0] == s[0]);
    digits_stop(src, i, i + s.len());
}

proof fn quotes_close(src: Text, i: int, s: Text, width: int)
    requires
        stands(src, i, s),
        quotable(s),
        width == 1 || width == 3,
        quotes_at(src, i + s.len(), width),
    ensures
        closing_quotes(src, i, width) == Some(i + s.len()),
    decreases s.len(),
{
    if s.len() > 0 {
        assert(src[i + 0] == s[0]);
        let n: int = if s[0] == '\\' {
            2
        } else {
            1
        };
        let rest = s.skip(n);
        assert(stands(src, i + n, rest)) by {
            assert forall|k: int| 0 <= k < rest.len() implies src[i + n + k] == #[trigger] rest[k] by {
                assert(src[i + (n + k)] == s[n + k]);
            }
        }
        quotes_close(src, i + n, rest, width);
        assert(!quotes_at(src, i, width));
    } else {
        assert(s =~= Seq::empty());
    }
}

proof fn string_is_found(src: Text, i: int, prefix: Text, quotes: Text, content: Text)
    requires
        plain_quotes(quotes),
        quotable(content),
        stands(src, i, prefix + quotes + content + quotes),
        ({
            let e = i + prefix.len() + quotes.len() + content.len() + quotes.len();
            e < src.len() ==> src[e] != '"'
        }),
    ensures
        crate::scan::string_at(src, i, i + prefix.len()) == FoundV::Lexeme(
            LexemeV {
                kind: KindV::Str { prefix, delimiter: quotes, content },
                start: i,
                end: i + prefix.len() + quotes.len() + content.len() + quotes.len(),
            },
        ),
{
    let q = i + prefix.len();
    let width = quotes.len() as int;
    stands_part(src, i, prefix + quotes + content, quotes);
    stands_part(src, i, prefix + quotes, content);
    stands_part(src, i, prefix, quotes);
    let c = q + width;
    let e = c + content.len();
    assert(forall|k: int| q <= k < q + width ==> #[trigger] src[k] == '"') by {
        assert forall|k: int| q <= k < q + width implies #[trigger] src[k] == '"' by {
            assert(src[q + (k - q)] == quotes[k - q]);
        }
    }
    assert(quotes_at(src, e, width)) by {
        assert forall|k: int| e <= k < e + width implies #[trigger] src[k] == '"' by {
            assert(src[e + (k - e)] == quotes[k - e]);
        }
    }
    assert(quotes_at(src, q, 3) == (width == 3)) by {
        if width == 1 {
            if content.len() > 0 {
                assert(src[c + 0] == content[0]);
                assert(src[q + 1] != '"');
            } else if q + 3 <= src.len() {
                assert(src[q + 2] != '"');
            }
        }
    }
    quotes_close(src, c, content, width);
    stands_is(src, i, prefix);
    stands_is(src, q, quotes);
    stands_is(src, c, content);
}

proof fn number_is_found(src: Text, i: int, text: Text, fraction: bool, after_dot: bool)
    requires
        stands(src, i, text),
        fraction ==> !after_dot && decimal_numeral(text),
        !fraction ==> whole_numeral(text),
        i + text.len() < src.len() ==> !digit_char(src[i + text.len()]) && src[i + text.len()]
            != '.',
    ensures
        text.len() > 0,
        digit(src[i]) || (src[i] == '-' && i + 1 < src.len() && digit(src[i + 1])),
        crate::scan::number_at(src, i, after_dot) == FoundV::Lexeme(
            LexemeV { kind: KindV::Number { text, fraction }, start: i, end: i + text.len() },
        ),
{
    let k: int = if fraction {
        choose|k: int|
            0 < k < text.len() && #[trigger] text[k] == '.' && whole_numeral(text.take(k))
                && digit_chars(text.skip(k + 1))
    } else {
        text.len() as int
    };
    let whole = text.take(k);
    assert(!fraction ==> whole =~= text);
    assert(whole + text.skip(k) =~= text);
    stands_part(src, i, whole, text.skip(k));
    assert(whole_numeral(whole));
    assert(src[i + 0] == whole[0]);
    if fraction {
        let part = text.skip(k + 1);
        assert(text.skip(k) =~= seq!['.'] + part);
        stands_part(src, i + k, seq!['.'], part);
        assert(src[i + k + 0] == seq!['.'][0]);
        digits_are_found(src, i + k + 1, part);
    }
    if digit_chars(whole) {
        digits_are_found(src, i, whole);
    } else {
        let ds = whole.skip(1);
        assert(whole =~= seq!['-'] + ds);
        stands_part(src, i, seq!['-'], ds);
        digits_are_found(src, i + 1, ds);
    }
    stands_is(src, i, text);
}

proof fn found(src: Text, i: int, kind: KindV, after_dot: bool)
    requires
        legible(kind),
        stands(src, i, spelling(kind)),
        stops(src, i + spelling(kind).len(), kind),
        after_dot ==> !(kind matches KindV::Number { fraction, .. } && fraction),
    ensures
        spelling(kind).len() > 0,
        found_at(src, i, after_dot) == FoundV::Lexeme(
            LexemeV { kind, start: i, end: i + spelling(kind).len() },
        ),
{
    reveal_strlit("---");
    let text = spelling(kind);
    let e = i + text.len();
    match kind {
        KindV::Comment(s) => {
            assert(src[i + 0] == text[0]);
            assert forall|k: int| i + 1 <= k < e implies #[trigger] src[k] != '\n' by {
                assert(src[i + (k - i)] == text[k - i]);
                assert(s.contains(s[k - i - 1]));
            }
            line_stops(src, i + 1, e);
            stands_part(src, i, seq!['#'], s);
            stands_is(src, i + 1, s);
        },
        KindV::Str { prefix, delimiter: quotes, content } => {
            string_is_found(src, i, prefix, quotes, content);
            stands_part(src, i, prefix + quotes + content, quotes);
            stands_part(src, i, prefix + quotes, content);
            stands_part(src, i, prefix, quotes);
            assert(src[i + prefix.len() + 0] == quotes[0]);
            if prefix.len() > 0 {
                assert(src[i + 0] == prefix[0]);
                assert(word_char(prefix[0]));
                if prefix.len() > 1 {
                    assert(src[i + 1] == prefix[1]);
                }
                word_is_found(src, i, prefix);
            } else {
                assert(i + prefix.len() == i);
            }
        },
        KindV::Number { text, fraction } => {
            number_is_found(src, i, text, fraction, after_dot);
        },
        KindV::Word(s) => {
            assert(src[i + 0] == s[0]);
            assert(word_char(s[0]));
            if s.len() > 1 {
                assert(src[i + 1] == s[1]);
            }
            word_is_found(src, i, s);
        },
        KindV::Ref(s) => {
            assert(src[i + 0] == text[0]);
            stands_part(src, i, seq!['$'], s);
            word_is_found(src, i + 1, s);
        },
        KindV::DocSeparator => {
            let s = "---"@;
            assert(s.len() == 3 && s[0] == '-' && s[1] == '-' && s[2] == '-');
            assert(src[i + 0] == s[0]);
            assert(src[i + 1] == s[1]);
            word_is_found(src, i, s);
        },
        KindV::Dot => {
            assert(src[i + 0] == text[0]);
        },
        KindV::Ellipsis => {
            assert(src[i + 0] == text[0]);
            assert(src[i + 1] == text[1]);
            assert(src[i + 2] == text[2]);
        },
        _ => {
            assert(src[i + 0] == text[0]);
        },
    }
}

proof fn spelled_grows(ms: Seq<MarkV>, k: int)
    requires
        0 <= k <= ms.len(),
    ensures
        stands(spelled(ms), 0, spelled(ms.take(k))),
    decreases ms.len() - k,
{
    if k == ms.len() {
        assert(ms.take(k) =~= ms);
    } else {
        spelled_grows(ms, k + 1);
        assert(ms.take(k + 1).drop_last() =~= ms.take(k));
        let more = spelled(ms.take(k + 1));
        let less = spelled(ms.take(k));
        assert forall|j: int| 0 <= j < less.len() implies spelled(ms)[0 + j] == #[trigger] less[j] by {
            assert(spelled(ms)[0 + j] == more[j]);
        }
    }
}

proof fn mark_stands(ms: Seq<MarkV>, k: int)
    requires
        0 <= k < ms.len(),
    ensures
        stands(spelled(ms), mark_start(ms, k) - ms[k].gap, spaces(ms[k].gap)),
        stands(spelled(ms), mark_start(ms, k), spelling(ms[k].kind)),
        mark_end(ms, k) == mark_start(ms, k) + spelling(ms[k].kind).len(),
        mark_end(ms, k) <= spelled(ms).len(),
        k + 1 == ms.len() ==> mark_end(ms, k) == spelled(ms).len(),
{
    let src = spelled(ms);
    let less = spelled(ms.take(k));
    spelled_grows(ms, k + 1);
    assert(ms.take(k + 1).drop_last() =~= ms.take(k));
    assert(ms.take(k + 1).last() == ms[k]);
    stands_part(src, 0, less + spaces(ms[k].gap), spelling(ms[k].kind));
    stands_part(src, 0, less, spaces(ms[k].gap));
    if k + 1 == ms.len() {
        assert(ms.take(k + 1) =~= ms);
    }
}

proof fn spelling_is_long(kind: KindV)
    requires
        legible(kind),
    ensures
        spelling(kind).len() > 0,
{
    reveal_strlit("---");
}

proof fn mark_stops(ms: Seq<MarkV>, k: int)
    requires
        readable(ms),
        0 <= k < ms.len(),
    ensures
        stops(spelled(ms), mark_end(ms, k), ms[k].kind),
{
    mark_stands(ms, k);
    if k + 1 < ms.len() {
        let src = spelled(ms);
        let e = mark_end(ms, k);
        let next = ms[k + 1];
        assert(apart(ms[k].kind, next));
        assert(legible(next.kind));
        mark_stands(ms, k + 1);
        spelling_is_long(next.kind);
        assert(mark_start(ms, k + 1) - next.gap == e);
        if next.gap > 0 {
            assert(src[e + 0] == spaces(next.gap)[0]);
        } else {
            assert(src[e + 0] == spelling(next.kind)[0]);
            reveal_strlit("---");
            match next.kind {
                KindV::Word(s) => {
                    assert(word_char(s[0]));
                },
                KindV::Str { prefix, delimiter, content } => {
                    if prefix.len() > 0 {
                        assert(word_char(prefix[0]));
                        assert(spelling(next.kind)[0] == prefix[0]);
                    } else {
                        assert(spelling(next.kind)[0] == delimiter[0]);
                    }
                },
                KindV::Number { text, fraction } => {
                    if fraction {
                        let j = choose|j: int|
                            0 < j < text.len() && #[trigger] text[j] == '.' && whole_numeral(
                                text.take(j),
                            ) && digit_chars(text.skip(j + 1));
                        assert(text.take(j)[0] == text[0]);
                        assert(digit_chars(text.take(j)) ==> digit_char(text.take(j)[0]));
                    } else {
                        assert(digit_chars(text) ==> digit_char(text[0]));
                    }
                },
                _ => {},
            }
        }
    }
}

/// The lexemes of a text that is put together from them.
pub open spec fn marks_read(ms: Seq<MarkV>) -> Seq<LexemeV> {
    Seq::new(
        ms.len(),
        |k: int|
            LexemeV { kind: ms[k].kind, start: mark_start(ms, k), end: mark_end(ms, k) },
    )
}

proof fn gap_is_skipped(src: Text, i: int, n: nat, found: Seq<LexemeV>)
    requires
        stands(src, i, spaces(n)),
    ensures
        lexemes_from(src, i, found) == lexemes_from(src, i + n, found),
    decreases n,
{
    if n > 0 {
        assert(src[i + 0] == spaces(n)[0]);
        let less = (n - 1) as nat;
        assert forall|k: int| 0 <= k < less implies src[i + 1 + k] == #[trigger] spaces(less)[k] by {
            assert(src[i + (1 + k)] == spaces(n)[1 + k]);
        }
        gap_is_skipped(src, i + 1, less, found);
    }
}

proof fn lexemes_are_read(ms: Seq<MarkV>, k: int)
    requires
        readable(ms),
        0 <= k <= ms.len(),
    ensures
        lexemes_from(spelled(ms), spelled(ms.take(k)).len() as int, marks_read(ms).take(k))
            == lexemes(spelled(ms)),
    decreases k,
{
    let src = spelled(ms);
    let ls = marks_read(ms);
    if k == 0 {
        assert(ms.take(0) =~= Seq::empty());
        assert(ls.take(0) =~= Seq::empty());
    } else {
        lexemes_are_read(ms, k - 1);
        let m = ms[k - 1];
        mark_stands(ms, k - 1);
        mark_stops(ms, k - 1);
        let before = ls.take(k - 1);
        let i = mark_start(ms, k - 1);
        gap_is_skipped(src, i - m.gap, m.gap, before);
        let after_dot = before.len() > 0 && before.last().kind is Dot;
        if before.len() > 0 {
            assert(before.last() == ls[k - 2]);
            assert(apart(ms[k - 2].kind, ms[k - 1]));
        }
        found(src, i, m.kind, after_dot);
        assert(before.push(ls[k - 1]) =~= ls.take(k));
    }
}

/// A text that is put together from lexemes is split into these lexemes, each in its place.
pub proof fn spelled_lexemes_are_read(ms: Seq<MarkV>)
    requires
        readable(ms),
    ensures
        lexemes(spelled(ms)) == Ok::<Seq<LexemeV>, ScanErrorV>(marks_read(ms)),
{
    lexemes_are_read(ms, ms.len() as int);
    assert(ms.take(ms.len() as int) =~= ms);
    assert(marks_read(ms).take(ms.len() as int) =~= marks_read(ms));
}

} // verus!
