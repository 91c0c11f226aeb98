//! The scanner: splits source text into lexemes, each with the range of characters it covers.
use crate::model::Text;
use crate::text::slice_text;
use vstd::prelude::*;

verus! {

/// The kinds of lexemes.
pub enum LexemeKind {
    Open,
    Close,
    Colon,
    Semicolon,
    Newline,
    Pipe,
    At,
    Dot,
    Ellipsis,
    DocSeparator,
    /// The text after `#`.
    Comment(String),
    Str { prefix: String, delimiter: String, content: String },
    /// Digits, possibly with a minus sign; `fraction` when a decimal part follows.
    Number { text: String, fraction: bool },
    Word(String),
    /// The name after `$`.
    Ref(String),
}

/// A lexeme: its kind and the range of characters it covers.
pub struct Lexeme {
    pub kind: LexemeKind,
    pub start: usize,
    pub end: usize,
}

/// What stops the scanner.
pub struct ScanError {
    pub message: String,
    pub start: usize,
    pub end: usize,
}

pub enum KindV {
    Open,
    Close,
    Colon,
    Semicolon,
    Newline,
    Pipe,
    At,
    Dot,
    Ellipsis,
    DocSeparator,
    Comment(Text),
    Str { prefix: Text, delimiter: Text, content: Text },
    Number { text: Text, fraction: bool },
    Word(Text),
    Ref(Text),
}

pub struct LexemeV {
    pub kind: KindV,
    pub start: int,
    pub end: int,
}

pub struct ScanErrorV {
    pub message: Text,
    pub start: int,
    pub end: int,
}

impl DeepView for LexemeKind {
    type V = KindV;

    open spec fn deep_view(&self) -> KindV {
        match *self {
            LexemeKind::Open => KindV::Open,
            LexemeKind::Close => KindV::Close,
            LexemeKind::Colon => KindV::Colon,
            LexemeKind::Semicolon => KindV::Semicolon,
            LexemeKind::Newline => KindV::Newline,
            LexemeKind::Pipe => KindV::Pipe,
            LexemeKind::At => KindV::At,
            LexemeKind::Dot => KindV::Dot,
            LexemeKind::Ellipsis => KindV::Ellipsis,
            LexemeKind::DocSeparator => KindV::DocSeparator,
            LexemeKind::Comment(s) => KindV::Comment(s@),
            LexemeKind::Str { prefix, delimiter, content } => KindV::Str {
                prefix: prefix@,
                delimiter: delimiter@,
                content: content@,
            },
            LexemeKind::Number { text, fraction } => KindV::Number { text: text@, fraction },
            LexemeKind::Word(s) => KindV::Word(s@),
            LexemeKind::Ref(s) => KindV::Ref(s@),
        }
    }
}

impl DeepView for Lexeme {
    type V = LexemeV;

    open spec fn deep_view(&self) -> LexemeV {
        LexemeV { kind: self.kind.deep_view(), start: self.start as int, end: self.end as int }
    }
}

impl DeepView for ScanError {
    type V = ScanErrorV;

    open spec fn deep_view(&self) -> ScanErrorV {
        ScanErrorV { message: self.message@, start: self.start as int, end: self.end as int }
    }
}

pub open spec fn digit(c: char) -> bool {
    '0' <= c && c <= '9'
}

pub open spec fn blank(c: char) -> bool {
    c == ' ' || c == '\t' || c == '\r'
}

/// Characters that end a word.
pub open spec fn delimiter(c: char) -> bool {
    blank(c) || c == '\n' || c == '[' || c == ']' || c == ':' || c == ';' || c == '#' || c == '"'
        || c == '@' || c == '.' || c == '|' || c == '$'
}

/// The end of the run of word characters that starts at `i`.
pub open spec fn word_end(src: Text, i: int) -> int
    decreases src.len() - i,
{
    if 0 <= i < src.len() && !delimiter(src[i]) {
        word_end(src, i + 1)
    } else {
        i
    }
}

/// The end of the run of digits that starts at `i`.
pub open spec fn digits_end(src: Text, i: int) -> int
    decreases src.len() - i,
{
    if 0 <= i < src.len() && digit(src[i]) {
        digits_end(src, i + 1)
    } else {
        i
    }
}

/// The end of the line that `i` is on: the place of the next line feed, or the end of the text.
pub open spec fn line_end(src: Text, i: int) -> int
    decreases src.len() - i,
{
    if 0 <= i < src.len() && src[i] != '\n' {
        line_end(src, i + 1)
    } else {
        i
    }
}

/// Whether `width` quotation marks stand at `i`.
pub open spec fn quotes_at(src: Text, i: int, width: int) -> bool {
    &&& 0 <= i
    &&& i + width <= src.len()
    &&& forall|k: int| i <= k < i + width ==> #[trigger] src[k] == '"'
}

/// Where the closing quotation marks of a string stand, searched from `i`; a backslash takes the
/// next character out of the search.
pub open spec fn closing_quotes(src: Text, i: int, width: int) -> Option<int>
    decreases src.len() - i,
{
    if i < 0 || i >= src.len() {
        None
    } else if quotes_at(src, i, width) {
        Some(i)
    } else if src[i] == '\\' && i + 1 < src.len() {
        closing_quotes(src, i + 2, width)
    } else {
        closing_quotes(src, i + 1, width)
    }
}

/// What the scanner finds at a place.
pub enum FoundV {
    Skip,
    Lexeme(LexemeV),
    Stop(ScanErrorV),
}

/// The string literal whose opening quotation marks stand at `q`, its prefix starting at `start`.
pub open spec fn string_at(src: Text, start: int, q: int) -> FoundV {
    let width: int = if quotes_at(src, q, 3) {
        3
    } else {
        1
    };
    match closing_quotes(src, q + width, width) {
        Some(e) => FoundV::Lexeme(
            LexemeV {
                kind: KindV::Str {
                    prefix: src.subrange(start, q),
                    delimiter: src.subrange(q, q + width),
                    content: src.subrange(q + width, e),
                },
                start,
                end: e + width,
            },
        ),
        None => FoundV::Stop(
            ScanErrorV { message: "unterminated string"@, start, end: q + width },
        ),
    }
}

/// The numeral at `i`. Right after a dot there is no decimal part, so that `a.0.1` is two accesses.
pub open spec fn number_at(src: Text, i: int, after_dot: bool) -> FoundV {
    let d = digits_end(
        src,
        if src[i] == '-' {
            i + 1
        } else {
            i
        },
    );
    let fraction = !after_dot && d + 1 < src.len() && src[d] == '.' && digit(src[d + 1]);
    let e = if fraction {
        digits_end(src, d + 1)
    } else {
        d
    };
    FoundV::Lexeme(
        LexemeV { kind: KindV::Number { text: src.subrange(i, e), fraction }, start: i, end: e },
    )
}

pub open spec fn simple(kind: KindV, start: int, end: int) -> FoundV {
    FoundV::Lexeme(LexemeV { kind, start, end })
}

/// What stands at place `i`.
pub open spec fn found_at(src: Text, i: int, after_dot: bool) -> FoundV {
    let c = src[i];
    if blank(c) {
        FoundV::Skip
    } else if c == '\n' {
        simple(KindV::Newline, i, i + 1)
    } else if c == '[' {
        simple(KindV::Open, i, i + 1)
    } else if c == ']' {
        simple(KindV::Close, i, i + 1)
    } else if c == ':' {
        simple(KindV::Colon, i, i + 1)
    } else if c == ';' {
        simple(KindV::Semicolon, i, i + 1)
    } else if c == '|' {
        simple(KindV::Pipe, i, i + 1)
    } else if c == '@' {
        simple(KindV::At, i, i + 1)
    } else if c == '.' {
        if i + 2 < src.len() && src[i + 1] == '.' && src[i + 2] == '.' {
            simple(KindV::Ellipsis, i, i + 3)
        } else {
            simple(KindV::Dot, i, i + 1)
        }
    } else if c == '#' {
        let e = line_end(src, i + 1);
        simple(KindV::Comment(src.subrange(i + 1, e)), i, e)
    } else if c == '"' {
        string_at(src, i, i)
    } else if c == '$' {
        let e = word_end(src, i + 1);
        if e > i + 1 {
            simple(KindV::Ref(src.subrange(i + 1, e)), i, e)
        } else {
            FoundV::Stop(
                ScanErrorV { message: "expected a name after `$`"@, start: i, end: i + 1 },
            )
        }
    } else if digit(c) || (c == '-' && i + 1 < src.len() && digit(src[i + 1])) {
        number_at(src, i, after_dot)
    } else {
        let e = word_end(src, i);
        if src.subrange(i, e) == "---"@ {
            simple(KindV::DocSeparator, i, e)
        } else if e < src.len() && src[e] == '"' {
            string_at(src, i, e)
        } else {
            simple(KindV::Word(src.subrange(i, e)), i, e)
        }
    }
}

/// The lexemes of the text from place `i` on, behind those already found.
pub open spec fn lexemes_from(src: Text, i: int, found: Seq<LexemeV>) -> Result<
    Seq<LexemeV>,
    ScanErrorV,
>
    decreases src.len() - i,
{
    if i < 0 || i >= src.len() {
        Ok(found)
    } else {
        match found_at(src, i, found.len() > 0 && found.last().kind is Dot) {
            FoundV::Skip => lexemes_from(src, i + 1, found),
            FoundV::Lexeme(l) => if i < l.end <= src.len() {
                lexemes_from(src, l.end, found.push(l))
            } else {
                Ok(found)
            },
            FoundV::Stop(e) => Err(e),
        }
    }
}

/// The lexemes of a text.
pub open spec fn lexemes(src: Text) -> Result<Seq<LexemeV>, ScanErrorV> {
    lexemes_from(src, 0, Seq::empty())
}

fn is_digit(c: char) -> (b: bool)
    ensures
        b == digit(c),
{
    '0' <= c && c <= '9'
}

fn is_delimiter(c: char) -> (b: bool)
    ensures
        b == delimiter(c),
{
    c == ' ' || c == '\t' || c == '\r' || c == '\n' || c == '[' || c == ']' || c == ':' || c == ';'
        || c == '#' || c == '"' || c == '@' || c == '.' || c == '|' || c == '$'
}

fn find_word_end(src: &Vec<char>, from: usize) -> (e: usize)
    requires
        from <= src@.len(),
    ensures
        e == word_end(src@, from as int),
        from <= e <= src@.len(),
{
    let mut i: usize = from;
    while i < src.len() && !is_delimiter(src[i])
        invariant
            from <= i <= src@.len(),
            word_end(src@, i as int) == word_end(src@, from as int),
        decreases src@.len() - i,
    {
        i = i + 1;
    }
    i
}

fn find_digits_end(src: &Vec<char>, from: usize) -> (e: usize)
    requires
        from <= src@.len(),
    ensures
        e == digits_end(src@, from as int),
        from <= e <= src@.len(),
{
    let mut i: usize = from;
    while i < src.len() && is_digit(src[i])
        invariant
            from <= i <= src@.len(),
            digits_end(src@, i as int) == digits_end(src@, from as int),
        decreases src@.len() - i,
    {
        i = i + 1;
    }
    i
}

/// The end of the line that `from` is on.
pub fn find_line_end(src: &Vec<char>, from: usize) -> (e: usize)
    requires
        from <= src@.len(),
    ensures
        e == line_end(src@, from as int),
        from <= e <= src@.len(),
{
    let mut i: usize = from;
    while i < src.len() && src[i] != '\n'
        invariant
            from <= i <= src@.len(),
            line_end(src@, i as int) == line_end(src@, from as int),
        decreases src@.len() - i,
    {
        i = i + 1;
    }
    i
}

fn has_quotes_at(src: &Vec<char>, i: usize, width: usize) -> (b: bool)
    requires
        i <= src@.len(),
        width <= 3,
    ensures
        b == quotes_at(src@, i as int, width as int),
{
    let n: usize = src.len();
    if n - i < width {
        return false;
    }
    let end: usize = i + width;
    let mut k: usize = i;
    while k < end
        invariant
            i <= k <= end <= src@.len(),
            end == i + width,
            forall|m: int| i <= m < k ==> #[trigger] src@[m] == '"',
        decreases end - k,
    {
        if src[k] != '"' {
            return false;
        }
        k = k + 1;
    }
    true
}

fn find_closing_quotes(src: &Vec<char>, from: usize, width: usize) -> (r: Option<usize>)
    requires
        from <= src@.len(),
        1 <= width <= 3,
    ensures
        match (r, closing_quotes(src@, from as int, width as int)) {
            (Some(a), Some(b)) => a == b && from <= a && a + width <= src@.len(),
            (None, None) => true,
            _ => false,
        },
{
    let mut i: usize = from;
    while i < src.len()
        invariant
            from <= i <= src@.len(),
            1 <= width <= 3,
            closing_quotes(src@, i as int, width as int) == closing_quotes(
                src@,
                from as int,
                width as int,
            ),
        decreases src@.len() - i,
    {
        if has_quotes_at(src, i, width) {
            return Some(i);
        }
        if src[i] == '\\' && src.len() - i > 1 {
            i = i + 2;
        } else {
            i = i + 1;
        }
    }
    None
}

/// What the scanner finds at a place.
enum Found {
    Skip,
    Lexeme(Lexeme),
    Stop(ScanError),
}

impl Found {
    spec fn model(self) -> FoundV {
        match self {
            Found::Skip => FoundV::Skip,
            Found::Lexeme(l) => FoundV::Lexeme(l.deep_view()),
            Found::Stop(e) => FoundV::Stop(e.deep_view()),
        }
    }
}

fn scan_string(src: &Vec<char>, start: usize, q: usize) -> (r: Found)
    requires
        start <= q < src@.len(),
        src@[q as int] == '"',
    ensures
        r.model() == string_at(src@, start as int, q as int),
        r matches Found::Lexeme(l) ==> start < l.end <= src@.len(),
        r !is Skip,
{
    let n: usize = src.len();
    let width: usize = if has_quotes_at(src, q, 3) {
        3
    } else {
        1
    };
    match find_closing_quotes(src, q + width, width) {
        Some(e) => Found::Lexeme(
            Lexeme {
                kind: LexemeKind::Str {
                    prefix: slice_text(src, start, q),
                    delimiter: slice_text(src, q, q + width),
                    content: slice_text(src, q + width, e),
                },
                start,
                end: e + width,
            },
        ),
        None => Found::Stop(
            ScanError { message: "unterminated string".to_owned(), start, end: q + width },
        ),
    }
}

fn scan_number(src: &Vec<char>, i: usize, after_dot: bool) -> (r: Found)
    requires
        i < src@.len(),
        digit(src@[i as int]) || (src@[i as int] == '-' && i + 1 < src@.len() && digit(
            src@[i + 1],
        )),
    ensures
        r.model() == number_at(src@, i as int, after_dot),
        r matches Found::Lexeme(l) && i < l.end <= src@.len(),
{
    let n: usize = src.len();
    let from: usize = if src[i] == '-' {
        i + 1
    } else {
        i
    };
    let d: usize = find_digits_end(src, from);
    proof {
        assert(digits_end(src@, from as int) == digits_end(src@, from + 1));
        digits_end_bounds(src@, from + 1);
    }
    let fraction: bool = !after_dot && d < n && d + 1 < n && src[d] == '.'
        && is_digit(src[d + 1]);
    let e: usize = if fraction {
        find_digits_end(src, d + 1)
    } else {
        d
    };
    Found::Lexeme(
        Lexeme {
            kind: LexemeKind::Number { text: slice_text(src, i, e), fraction },
            start: i,
            end: e,
        },
    )
}

proof fn digits_end_bounds(src: Text, i: int)
    requires
        0 <= i <= src.len(),
    ensures
        i <= digits_end(src, i) <= src.len(),
    decreases src.len() - i,
{
    if i < src.len() && digit(src[i]) {
        digits_end_bounds(src, i + 1);
    }
}

fn single(kind: LexemeKind, start: usize) -> (r: Found)
    requires
        start < usize::MAX,
    ensures
        r.model() == simple(kind.deep_view(), start as int, start + 1),
        r matches Found::Lexeme(l) && l.end == start + 1,
{
    Found::Lexeme(Lexeme { kind, start, end: start + 1 })
}

fn scan_at(src: &Vec<char>, i: usize, after_dot: bool) -> (r: Found)
    requires
        i < src@.len(),
    ensures
        r.model() == found_at(src@, i as int, after_dot),
        r matches Found::Lexeme(l) ==> i < l.end <= src@.len(),
{
    let c: char = src[i];
    let n: usize = src.len();
    if c == ' ' || c == '\t' || c == '\r' {
        Found::Skip
    } else if c == '\n' {
        single(LexemeKind::Newline, i)
    } else if c == '[' {
        single(LexemeKind::Open, i)
    } else if c == ']' {
        single(LexemeKind::Close, i)
    } else if c == ':' {
        single(LexemeKind::Colon, i)
    } else if c == ';' {
        single(LexemeKind::Semicolon, i)
    } else if c == '|' {
        single(LexemeKind::Pipe, i)
    } else if c == '@' {
        single(LexemeKind::At, i)
    } else if c == '.' {
        if n - i > 2 && src[i + 1] == '.' && src[i + 2] == '.' {
            Found::Lexeme(Lexeme { kind: LexemeKind::Ellipsis, start: i, end: i + 3 })
        } else {
            single(LexemeKind::Dot, i)
        }
    } else if c == '#' {
        let e: usize = find_line_end(src, i + 1);
        Found::Lexeme(
            Lexeme { kind: LexemeKind::Comment(slice_text(src, i + 1, e)), start: i, end: e },
        )
    } else if c == '"' {
        scan_string(src, i, i)
    } else if c == '$' {
        let e: usize = find_word_end(src, i + 1);
        if e > i + 1 {
            Found::Lexeme(
                Lexeme { kind: LexemeKind::Ref(slice_text(src, i + 1, e)), start: i, end: e },
            )
        } else {
            Found::Stop(
                ScanError {
                    message: "expected a name after `$`".to_owned(),
                    start: i,
                    end: i + 1,
                },
            )
        }
    } else if is_digit(c) || (c == '-' && n - i > 1 && is_digit(src[i + 1])) {
        scan_number(src, i, after_dot)
    } else {
        let e: usize = find_word_end(src, i);
        assert(word_end(src@, i as int) == word_end(src@, i + 1));
        proof {
            word_end_bounds(src@, i + 1);
        }
        let word: String = slice_text(src, i, e);
        if crate::text::text_is(&word, "---") {
            Found::Lexeme(Lexeme { kind: LexemeKind::DocSeparator, start: i, end: e })
        } else if e < n && src[e] == '"' {
            scan_string(src, i, e)
        } else {
            Found::Lexeme(Lexeme { kind: LexemeKind::Word(word), start: i, end: e })
        }
    }
}

proof fn word_end_bounds(src: Text, i: int)
    requires
        0 <= i <= src.len(),
    ensures
        i <= word_end(src, i) <= src.len(),
    decreases src.len() - i,
{
    if i < src.len() && !delimiter(src[i]) {
        word_end_bounds(src, i + 1);
    }
}

/// Splits the characters of a source into lexemes.
pub fn scan(src: &Vec<char>) -> (r: Result<Vec<Lexeme>, ScanError>)
    ensures
        match (r, lexemes(src@)) {
            (Ok(v), Ok(s)) => v.deep_view() == s && (forall|k: int|
                0 <= k < v@.len() ==> (#[trigger] v@[k]).start < v@[k].end <= src@.len()),
            (Err(e), Err(f)) => e.deep_view() == f && e.start <= src@.len() && e.end
                <= src@.len(),
            _ => false,
        },
{
    broadcast use crate::model::group_models;

    let mut out: Vec<Lexeme> = Vec::new();
    let mut i: usize = 0;
    let mut after_dot: bool = false;
    while i < src.len()
        invariant
            i <= src@.len(),
            lexemes_from(src@, i as int, out.deep_view()) == lexemes(src@),
            after_dot == (out.deep_view().len() > 0 && out.deep_view().last().kind is Dot),
            forall|k: int| 0 <= k < out@.len() ==> (#[trigger] out@[k]).start < out@[k].end
                <= src@.len(),
        decreases src@.len() - i,
    {
        match scan_at(src, i, after_dot) {
            Found::Skip => {
                i = i + 1;
            },
            Found::Lexeme(l) => {
                let ghost before = out.deep_view();
                let ghost found = l.deep_view();
                assert(lexemes_from(src@, i as int, before) == lexemes_from(
                    src@,
                    found.end,
                    before.push(found),
                ));
                i = l.end;
                after_dot = matches!(l.kind, LexemeKind::Dot);
                out.push(l);
                assert(out.deep_view() == before.push(found));
            },
            Found::Stop(e) => {
                return Err(e);
            },
        }
    }
    Ok(out)
}

/// Whether a lexeme lies inside a text and is not empty.
pub open spec fn inside(src: Text, l: LexemeV) -> bool {
    0 <= l.start < l.end <= src.len()
}

/// The lexemes stand one behind the other.
pub open spec fn in_sequence(ls: Seq<LexemeV>) -> bool {
    forall|a: int, b: int|
        0 <= a < b < ls.len() ==> (#[trigger] ls[a]).end <= (#[trigger] ls[b]).start
}

pub open spec fn all_inside(src: Text, ls: Seq<LexemeV>) -> bool {
    forall|a: int| 0 <= a < ls.len() ==> inside(src, #[trigger] ls[a])
}

/// Whether place `k` belongs to one of the lexemes.
pub open spec fn covered(ls: Seq<LexemeV>, k: int) -> bool {
    exists|a: int| 0 <= a < ls.len() && (#[trigger] ls[a]).start <= k < ls[a].end
}

/// Every character before place `i` is blank or belongs to a lexeme.
pub open spec fn covered_up_to(src: Text, ls: Seq<LexemeV>, i: int) -> bool {
    forall|k: int| 0 <= k < i && !blank(#[trigger] src[k]) ==> covered(ls, k)
}

proof fn closing_quotes_bounds(src: Text, i: int, width: int)
    requires
        0 <= i,
    ensures
        closing_quotes(src, i, width) matches Some(e) ==> i <= e && e + width <= src.len(),
    decreases src.len() - i,
{
    if i < src.len() && !quotes_at(src, i, width) {
        if src[i] == '\\' && i + 1 < src.len() {
            closing_quotes_bounds(src, i + 2, width);
        } else {
            closing_quotes_bounds(src, i + 1, width);
        }
    }
}

/// The end of a line is not before the place it is searched from.
pub proof fn line_end_bounds(src: Text, i: int)
    requires
        0 <= i <= src.len(),
    ensures
        i <= line_end(src, i) <= src.len(),
    decreases src.len() - i,
{
    if i < src.len() && src[i] != '\n' {
        line_end_bounds(src, i + 1);
    }
}

/// A lexeme that is found at a place starts there and covers at least one character.
pub proof fn found_is_inside(src: Text, i: int, after_dot: bool)
    requires
        0 <= i < src.len(),
    ensures
        found_at(src, i, after_dot) matches FoundV::Lexeme(l) ==> l.start == i && inside(src, l),
{
    line_end_bounds(src, i + 1);
    word_end_bounds(src, i);
    word_end_bounds(src, i + 1);
    digits_end_bounds(src, i);
    digits_end_bounds(src, i + 1);
    let d = digits_end(
        src,
        if src[i] == '-' {
            i + 1
        } else {
            i
        },
    );
    if d + 1 < src.len() {
        digits_end_bounds(src, d + 1);
    }
    let e = word_end(src, i);
    closing_quotes_bounds(src, i + 1, 1);
    closing_quotes_bounds(src, i + 3, 3);
    closing_quotes_bounds(src, e + 1, 1);
    closing_quotes_bounds(src, e + 3, 3);
}

proof fn lexemes_from_in_order(src: Text, i: int, found: Seq<LexemeV>)
    requires
        0 <= i <= src.len(),
        all_inside(src, found),
        in_sequence(found),
        forall|a: int| 0 <= a < found.len() ==> (#[trigger] found[a]).end <= i,
        covered_up_to(src, found, i),
    ensures
        lexemes_from(src, i, found) matches Ok(ls) ==> {
            &&& all_inside(src, ls)
            &&& in_sequence(ls)
            &&& covered_up_to(src, ls, src.len() as int)
        },
    decreases src.len() - i,
{
    if i < src.len() {
        let after_dot = found.len() > 0 && found.last().kind is Dot;
        found_is_inside(src, i, after_dot);
        match found_at(src, i, after_dot) {
            FoundV::Skip => {
                lexemes_from_in_order(src, i + 1, found);
            },
            FoundV::Lexeme(l) => {
                let more = found.push(l);
                assert(forall|a: int| 0 <= a < found.len() ==> #[trigger] more[a] == found[a]);
                assert forall|k: int| 0 <= k < l.end && !blank(#[trigger] src[k]) implies covered(
                    more,
                    k,
                ) by {
                    if k < i {
                        assert(covered(found, k));
                        let a = choose|a: int|
                            0 <= a < found.len() && (#[trigger] found[a]).start <= k < found[a].end;
                        assert(more[a] == found[a]);
                    } else {
                        assert(more[found.len() as int] == l);
                    }
                }
                lexemes_from_in_order(src, l.end, more);
            },
            FoundV::Stop(_) => {},
        }
    }
}

/// The lexemes of a text lie inside it, stand one behind the other, and leave out nothing but blanks.
pub proof fn lexemes_in_order(src: Text)
    ensures
        lexemes(src) matches Ok(ls) ==> {
            &&& all_inside(src, ls)
            &&& in_sequence(ls)
            &&& covered_up_to(src, ls, src.len() as int)
        },
{
    lexemes_from_in_order(src, 0, Seq::empty());
}

} // verus!
