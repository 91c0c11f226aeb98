//! The tokens of the language, read off the lexemes of a source.
use crate::ast::{Span, Spanned};
use crate::model::{SpanV, Text};
use crate::scan::{
    digit, inside, lexemes, lexemes_in_order, scan, KindV, LexemeKind, LexemeV, ScanErrorV,
};
use crate::text::{
    chars_of, debug_text, decimal, decimal_text, digit_char, int_text, join3, quoted, signed_text,
    text_is,
};
use std::sync::Arc;
use vstd::prelude::*;

verus! {

/// A token.
#[derive(Debug, PartialEq)]
pub enum Token {
    OpenBracket,
    CloseBracket,
    Colon,
    Semicolon,
    Newline,
    Pipe,
    /// `@` apart from what stands before it.
    At,
    /// `@` right behind a value.
    ImmediateAt,
    Dot,
    Ellipsis,
    DocSeparator,
    Let,
    Case,
    Int(i64),
    U64Lit(u64),
    Float(String),
    StringLiteral { prefix: String, delimiter: String, content: String },
    Identifier(String),
    /// `$name`
    EscapedRef(String),
    Comment(String),
}

pub enum TokenV {
    OpenBracket,
    CloseBracket,
    Colon,
    Semicolon,
    Newline,
    Pipe,
    At,
    ImmediateAt,
    Dot,
    Ellipsis,
    DocSeparator,
    Let,
    Case,
    Int(i64),
    U64Lit(u64),
    Float(Text),
    StringLiteral { prefix: Text, delimiter: Text, content: Text },
    Identifier(Text),
    EscapedRef(Text),
    Comment(Text),
}

/// A token with its region.
pub struct TokV {
    pub tok: TokenV,
    pub span: SpanV,
}

/// Why a source has no tokens.
#[derive(Debug, PartialEq)]
pub struct LexError {
    pub message: String,
    pub span: Span,
}

pub struct LexErrorV {
    pub message: Text,
    pub span: SpanV,
}

impl DeepView for Token {
    type V = TokenV;

    open spec fn deep_view(&self) -> TokenV {
        match *self {
            Token::OpenBracket => TokenV::OpenBracket,
            Token::CloseBracket => TokenV::CloseBracket,
            Token::Colon => TokenV::Colon,
            Token::Semicolon => TokenV::Semicolon,
            Token::Newline => TokenV::Newline,
            Token::Pipe => TokenV::Pipe,
            Token::At => TokenV::At,
            Token::ImmediateAt => TokenV::ImmediateAt,
            Token::Dot => TokenV::Dot,
            Token::Ellipsis => TokenV::Ellipsis,
            Token::DocSeparator => TokenV::DocSeparator,
            Token::Let => TokenV::Let,
            Token::Case => TokenV::Case,
            Token::Int(n) => TokenV::Int(n),
            Token::U64Lit(n) => TokenV::U64Lit(n),
            Token::Float(s) => TokenV::Float(s@),
            Token::StringLiteral { prefix, delimiter, content } => TokenV::StringLiteral {
                prefix: prefix@,
                delimiter: delimiter@,
                content: content@,
            },
            Token::Identifier(s) => TokenV::Identifier(s@),
            Token::EscapedRef(s) => TokenV::EscapedRef(s@),
            Token::Comment(s) => TokenV::Comment(s@),
        }
    }
}

impl DeepView for Spanned<Token> {
    type V = TokV;

    open spec fn deep_view(&self) -> TokV {
        TokV { tok: self.node.deep_view(), span: self.span.deep_view() }
    }
}

impl DeepView for LexError {
    type V = LexErrorV;

    open spec fn deep_view(&self) -> LexErrorV {
        LexErrorV { message: self.message@, span: self.span.deep_view() }
    }
}

/// The line and the column of place `i` of a text, both counted from one.
pub open spec fn line_col(src: Text, i: int) -> (int, int)
    decreases i,
{
    if i <= 0 {
        (1, 1)
    } else {
        let (line, col) = line_col(src, i - 1);
        if i <= src.len() && src[i - 1] == '\n' {
            (line + 1, 1)
        } else {
            (line, col + 1)
        }
    }
}

/// The region of the characters `start..end` of a text.
pub open spec fn region(src: Text, file: Text, start: int, end: int) -> SpanV {
    SpanV {
        file,
        start_line: line_col(src, start).0 as u32,
        start_col: line_col(src, start).1 as u32,
        end_line: line_col(src, end).0 as u32,
        end_col: line_col(src, end).1 as u32,
        name: None,
    }
}

/// The number that a row of digits writes.
pub open spec fn digits_value(s: Text) -> nat
    decreases s.len(),
{
    if s.len() == 0 {
        0
    } else {
        digits_value(s.drop_last()) * 10 + (s.last() as u32 - '0' as u32) as nat
    }
}

/// Whether every character is a digit.
pub open spec fn all_digits(s: Text) -> bool {
    forall|k: int| 0 <= k < s.len() ==> digit(#[trigger] s[k])
}

/// The message for an integer literal that fits no integer type.
pub open spec fn out_of_range() -> Text {
    "integer literal out of range"@
}

/// The token of an integer numeral: signed where it fits, else unsigned.
pub open spec fn int_token(text: Text) -> Result<TokenV, Text> {
    if text.len() > 0 && text[0] == '-' {
        let v = digits_value(text.skip(1));
        if all_digits(text.skip(1)) && v <= 0x8000_0000_0000_0000 {
            Ok(TokenV::Int((-v) as i64))
        } else {
            Err(out_of_range())
        }
    } else {
        let v = digits_value(text);
        if all_digits(text) && v <= i64::MAX {
            Ok(TokenV::Int(v as i64))
        } else if all_digits(text) && v <= u64::MAX {
            Ok(TokenV::U64Lit(v as u64))
        } else {
            Err(out_of_range())
        }
    }
}

/// Whether a lexeme can end a value.
pub open spec fn ends_value(kind: KindV) -> bool {
    match kind {
        KindV::Close => true,
        KindV::Str { .. } => true,
        KindV::Number { .. } => true,
        KindV::Word(_) => true,
        KindV::Ref(_) => true,
        _ => false,
    }
}

/// The token of a lexeme, given whether a value ends right before it.
pub open spec fn token_of(kind: KindV, immediate: bool) -> Result<TokenV, Text> {
    match kind {
        KindV::Open => Ok(TokenV::OpenBracket),
        KindV::Close => Ok(TokenV::CloseBracket),
        KindV::Colon => Ok(TokenV::Colon),
        KindV::Semicolon => Ok(TokenV::Semicolon),
        KindV::Newline => Ok(TokenV::Newline),
        KindV::Pipe => Ok(TokenV::Pipe),
        KindV::At => Ok(
            if immediate {
                TokenV::ImmediateAt
            } else {
                TokenV::At
            },
        ),
        KindV::Dot => Ok(TokenV::Dot),
        KindV::Ellipsis => Ok(TokenV::Ellipsis),
        KindV::DocSeparator => Ok(TokenV::DocSeparator),
        KindV::Comment(s) => Ok(TokenV::Comment(s)),
        KindV::Str { prefix, delimiter, content } => Ok(
            TokenV::StringLiteral { prefix, delimiter, content },
        ),
        KindV::Number { text, fraction } => if fraction {
            Ok(TokenV::Float(text))
        } else {
            int_token(text)
        },
        KindV::Word(s) => Ok(
            if s == "let"@ {
                TokenV::Let
            } else if s == "case"@ {
                TokenV::Case
            } else {
                TokenV::Identifier(s)
            },
        ),
        KindV::Ref(s) => Ok(TokenV::EscapedRef(s)),
    }
}

/// Whether lexeme `k` stands right behind a lexeme that can end a value.
pub open spec fn immediate(ls: Seq<LexemeV>, k: int) -> bool {
    0 < k < ls.len() && ls[k - 1].end == ls[k].start && ends_value(ls[k - 1].kind)
}

/// The tokens of the lexemes from `k` on, behind those already made.
pub open spec fn tokens_from(
    src: Text,
    file: Text,
    ls: Seq<LexemeV>,
    k: int,
    made: Seq<TokV>,
) -> Result<Seq<TokV>, LexErrorV>
    decreases ls.len() - k,
{
    if k < 0 || k >= ls.len() {
        Ok(made)
    } else {
        let span = region(src, file, ls[k].start, ls[k].end);
        match token_of(ls[k].kind, immediate(ls, k)) {
            Ok(tok) => tokens_from(src, file, ls, k + 1, made.push(TokV { tok, span })),
            Err(message) => Err(LexErrorV { message, span }),
        }
    }
}

/// The tokens of a source.
pub open spec fn tokens_of(src: Text, file: Text) -> Result<Seq<TokV>, LexErrorV> {
    match lexemes(src) {
        Ok(ls) => tokens_from(src, file, ls, 0, Seq::empty()),
        Err(e) => Err(
            LexErrorV { message: e.message, span: region(src, file, e.start, e.end) },
        ),
    }
}

/// The `Debug` rendering of a token.
pub open spec fn token_text(t: TokenV) -> Text {
    match t {
        TokenV::OpenBracket => "OpenBracket"@,
        TokenV::CloseBracket => "CloseBracket"@,
        TokenV::Colon => "Colon"@,
        TokenV::Semicolon => "Semicolon"@,
        TokenV::Newline => "Newline"@,
        TokenV::Pipe => "Pipe"@,
        TokenV::At => "At"@,
        TokenV::ImmediateAt => "ImmediateAt"@,
        TokenV::Dot => "Dot"@,
        TokenV::Ellipsis => "Ellipsis"@,
        TokenV::DocSeparator => "DocSeparator"@,
        TokenV::Let => "Let"@,
        TokenV::Case => "Case"@,
        TokenV::Int(n) => "Int("@ + int_text(n as int) + ")"@,
        TokenV::U64Lit(n) => "U64Lit("@ + decimal(n as nat) + ")"@,
        TokenV::Float(s) => "Float("@ + s + ")"@,
        TokenV::StringLiteral { prefix, delimiter, content } => "StringLiteral { prefix: "@
            + debug_text(prefix) + ", delimiter: "@ + debug_text(delimiter) + ", content: "@
            + debug_text(content) + " }"@,
        TokenV::Identifier(s) => "Identifier("@ + debug_text(s) + ")"@,
        TokenV::EscapedRef(s) => "EscapedRef("@ + debug_text(s) + ")"@,
        TokenV::Comment(s) => "Comment("@ + debug_text(s) + ")"@,
    }
}

/// The rendering of a token in a message.
pub fn describe_token(t: &Token) -> (r: String)
    ensures
        r@ == token_text(t.deep_view()),
{
    match t {
        Token::OpenBracket => "OpenBracket".to_owned(),
        Token::CloseBracket => "CloseBracket".to_owned(),
        Token::Colon => "Colon".to_owned(),
        Token::Semicolon => "Semicolon".to_owned(),
        Token::Newline => "Newline".to_owned(),
        Token::Pipe => "Pipe".to_owned(),
        Token::At => "At".to_owned(),
        Token::ImmediateAt => "ImmediateAt".to_owned(),
        Token::Dot => "Dot".to_owned(),
        Token::Ellipsis => "Ellipsis".to_owned(),
        Token::DocSeparator => "DocSeparator".to_owned(),
        Token::Let => "Let".to_owned(),
        Token::Case => "Case".to_owned(),
        Token::Int(n) => join3("Int(", signed_text(*n).as_str(), ")"),
        Token::U64Lit(n) => join3("U64Lit(", decimal_text(*n).as_str(), ")"),
        Token::Float(s) => join3("Float(", s.as_str(), ")"),
        Token::StringLiteral { prefix, delimiter, content } => {
            let mut out: String = join3(
                "StringLiteral { prefix: ",
                quoted(prefix.as_str()).as_str(),
                ", delimiter: ",
            );
            out.append(quoted(delimiter.as_str()).as_str());
            out.append(", content: ");
            out.append(quoted(content.as_str()).as_str());
            out.append(" }");
            out
        },
        Token::Identifier(s) => join3("Identifier(", quoted(s.as_str()).as_str(), ")"),
        Token::EscapedRef(s) => join3("EscapedRef(", quoted(s.as_str()).as_str(), ")"),
        Token::Comment(s) => join3("Comment(", quoted(s.as_str()).as_str(), ")"),
    }
}

/// Lines and columns are counted from one, and grow no faster than the places.
pub proof fn line_col_bounds(src: Text, i: int)
    requires
        0 <= i,
    ensures
        1 <= line_col(src, i).0 <= i + 1,
        1 <= line_col(src, i).1 <= i + 1,
    decreases i,
{
    if i > 0 {
        line_col_bounds(src, i - 1);
    }
}

/// The line and the column of every place of a text, its end included.
fn positions(src: &Vec<char>) -> (r: Vec<(u32, u32)>)
    requires
        src@.len() < u32::MAX,
    ensures
        r@.len() == src@.len() + 1,
        forall|i: int|
            0 <= i <= src@.len() ==> #[trigger] r@[i] == (
                line_col(src@, i).0 as u32,
                line_col(src@, i).1 as u32,
            ),
{
    let mut out: Vec<(u32, u32)> = Vec::new();
    let mut line: u32 = 1;
    let mut col: u32 = 1;
    out.push((1, 1));
    let mut i: usize = 0;
    while i < src.len()
        invariant
            i <= src@.len() < u32::MAX,
            out@.len() == i + 1,
            line == line_col(src@, i as int).0,
            col == line_col(src@, i as int).1,
            forall|k: int|
                0 <= k <= i ==> #[trigger] out@[k] == (
                    line_col(src@, k).0 as u32,
                    line_col(src@, k).1 as u32,
                ),
        decreases src@.len() - i,
    {
        proof {
            line_col_bounds(src@, i as int);
        }
        if src[i] == '\n' {
            line = line + 1;
            col = 1;
        } else {
            col = col + 1;
        }
        i = i + 1;
        out.push((line, col));
    }
    out
}

fn make_region(
    positions: &Vec<(u32, u32)>,
    file: &Arc<String>,
    start: usize,
    end: usize,
    src: Ghost<Text>,
) -> (s: Span)
    requires
        positions@.len() == src@.len() + 1,
        start <= src@.len(),
        end <= src@.len(),
        forall|i: int|
            0 <= i <= src@.len() ==> #[trigger] positions@[i] == (
                line_col(src@, i).0 as u32,
                line_col(src@, i).1 as u32,
            ),
    ensures
        s.deep_view() == region(src@, file@, start as int, end as int),
{
    let from: (u32, u32) = positions[start];
    let to: (u32, u32) = positions[end];
    Span {
        file: Arc::clone(file),
        start_line: from.0,
        start_col: from.1,
        end_line: to.0,
        end_col: to.1,
        name: None,
    }
}

proof fn digits_value_grows(s: Text, k: int)
    requires
        0 <= k <= s.len(),
    ensures
        digits_value(s.take(k)) <= digits_value(s),
    decreases s.len() - k,
{
    if k < s.len() {
        assert(s.take(k + 1).drop_last() =~= s.take(k));
        digits_value_grows(s, k + 1);
    } else {
        assert(s.take(k) =~= s);
    }
}

/// The number that a row of digits writes, where it fits sixty-four bits.
fn parse_digits(chars: &Vec<char>, from: usize) -> (r: Option<u64>)
    requires
        from <= chars@.len(),
    ensures
        match r {
            Some(v) => all_digits(chars@.skip(from as int)) && v == digits_value(
                chars@.skip(from as int),
            ),
            None => !all_digits(chars@.skip(from as int)) || digits_value(
                chars@.skip(from as int),
            ) > u64::MAX,
        },
{
    let ghost s = chars@.skip(from as int);
    let mut v: u64 = 0;
    let mut i: usize = from;
    assert(s.take(0) =~= Seq::empty());
    while i < chars.len()
        invariant
            from <= i <= chars@.len(),
            s == chars@.skip(from as int),
            v == digits_value(s.take(i - from)),
            forall|k: int| 0 <= k < i - from ==> digit(#[trigger] s[k]),
        decreases chars@.len() - i,
    {
        let c: char = chars[i];
        assert(c == s[i - from]);
        if !('0' <= c && c <= '9') {
            return None;
        }
        let d: u64 = (c as u32 - '0' as u32) as u64;
        proof {
            assert(s.take(i - from + 1).drop_last() =~= s.take(i - from));
            assert(s.take(i - from + 1).last() == c);
            digits_value_grows(s, i - from + 1);
        }
        match v.checked_mul(10) {
            Some(w) => match w.checked_add(d) {
                Some(u) => {
                    v = u;
                },
                None => {
                    return None;
                },
            },
            None => {
                return None;
            },
        }
        i = i + 1;
    }
    assert(s.take(i - from) =~= s);
    Some(v)
}

/// The token of an integer numeral.
pub fn make_int(text: &String) -> (r: Result<Token, String>)
    ensures
        match (r, int_token(text@)) {
            (Ok(t), Ok(m)) => t.deep_view() == m,
            (Err(e), Err(m)) => e@ == m,
            _ => false,
        },
{
    let chars: Vec<char> = chars_of(text.as_str());
    if chars.len() > 0 && chars[0] == '-' {
        match parse_digits(&chars, 1) {
            Some(v) => if v <= 0x8000_0000_0000_0000 {
                let n: i128 = -(v as i128);
                Ok(Token::Int(n as i64))
            } else {
                Err("integer literal out of range".to_owned())
            },
            None => Err("integer literal out of range".to_owned()),
        }
    } else {
        assert(chars@.skip(0) =~= text@);
        match parse_digits(&chars, 0) {
            Some(v) => if v <= 0x7fff_ffff_ffff_ffff {
                Ok(Token::Int(v as i64))
            } else {
                Ok(Token::U64Lit(v))
            },
            None => Err("integer literal out of range".to_owned()),
        }
    }
}

/// Whether a lexeme can end a value.
pub fn kind_ends_value(kind: &LexemeKind) -> (b: bool)
    ensures
        b == ends_value(kind.deep_view()),
{
    match kind {
        LexemeKind::Close => true,
        LexemeKind::Str { .. } => true,
        LexemeKind::Number { .. } => true,
        LexemeKind::Word(_) => true,
        LexemeKind::Ref(_) => true,
        _ => false,
    }
}

fn make_token(kind: &LexemeKind, is_immediate: bool) -> (r: Result<Token, String>)
    ensures
        match (r, token_of(kind.deep_view(), is_immediate)) {
            (Ok(t), Ok(m)) => t.deep_view() == m,
            (Err(e), Err(m)) => e@ == m,
            _ => false,
        },
{
    match kind {
        LexemeKind::Open => Ok(Token::OpenBracket),
        LexemeKind::Close => Ok(Token::CloseBracket),
        LexemeKind::Colon => Ok(Token::Colon),
        LexemeKind::Semicolon => Ok(Token::Semicolon),
        LexemeKind::Newline => Ok(Token::Newline),
        LexemeKind::Pipe => Ok(Token::Pipe),
        LexemeKind::At => if is_immediate {
            Ok(Token::ImmediateAt)
        } else {
            Ok(Token::At)
        },
        LexemeKind::Dot => Ok(Token::Dot),
        LexemeKind::Ellipsis => Ok(Token::Ellipsis),
        LexemeKind::DocSeparator => Ok(Token::DocSeparator),
        LexemeKind::Comment(s) => Ok(Token::Comment(s.clone())),
        LexemeKind::Str { prefix, delimiter, content } => Ok(
            Token::StringLiteral {
                prefix: prefix.clone(),
                delimiter: delimiter.clone(),
                content: content.clone(),
            },
        ),
        LexemeKind::Number { text, fraction } => if *fraction {
            Ok(Token::Float(text.clone()))
        } else {
            make_int(text)
        },
        LexemeKind::Word(s) => if text_is(s, "let") {
            Ok(Token::Let)
        } else if text_is(s, "case") {
            Ok(Token::Case)
        } else {
            Ok(Token::Identifier(s.clone()))
        },
        LexemeKind::Ref(s) => Ok(Token::EscapedRef(s.clone())),
    }
}

/// Splits a source into tokens. Spaces vanish; line ends and comments stay.
pub fn tokenize(source: &str, file: Arc<String>) -> (r: Result<Vec<Spanned<Token>>, LexError>)
    requires
        source@.len() < u32::MAX,
    ensures
        match (r, tokens_of(source@, file@)) {
            (Ok(v), Ok(s)) => v.deep_view() == s,
            (Err(e), Err(m)) => e.deep_view() == m,
            _ => false,
        },
{
    broadcast use crate::model::group_models;

    let chars: Vec<char> = chars_of(source);
    let pos: Vec<(u32, u32)> = positions(&chars);
    match scan(&chars) {
        Err(e) => {
            let span: Span = make_region(&pos, &file, e.start, e.end, Ghost(chars@));
            Err(LexError { message: e.message, span })
        },
        Ok(ls) => {
            let mut out: Vec<Spanned<Token>> = Vec::new();
            let mut k: usize = 0;
            while k < ls.len()
                invariant
                    k <= ls@.len(),
                    chars@ == source@,
                    pos@.len() == chars@.len() + 1,
                    forall|i: int|
                        0 <= i <= chars@.len() ==> #[trigger] pos@[i] == (
                            line_col(chars@, i).0 as u32,
                            line_col(chars@, i).1 as u32,
                        ),
                    forall|j: int|
                        0 <= j < ls@.len() ==> (#[trigger] ls@[j]).start < ls@[j].end
                            <= chars@.len(),
                    lexemes(source@) == Ok::<Seq<LexemeV>, ScanErrorV>(ls.deep_view()),
                    tokens_from(source@, file@, ls.deep_view(), k as int, out.deep_view())
                        == tokens_of(source@, file@),
                decreases ls@.len() - k,
            {
                let is_immediate: bool = k > 0 && ls[k - 1].end == ls[k].start && kind_ends_value(
                    &ls[k - 1].kind,
                );
                assert(is_immediate == immediate(ls.deep_view(), k as int)) by {
                    assert(ls.deep_view()[k as int] == ls@[k as int].deep_view());
                    if k > 0 {
                        assert(ls.deep_view()[k - 1] == ls@[k - 1].deep_view());
                    }
                }
                let span: Span = make_region(&pos, &file, ls[k].start, ls[k].end, Ghost(chars@));
                let ghost before = out.deep_view();
                match make_token(&ls[k].kind, is_immediate) {
                    Ok(node) => {
                        let t: Spanned<Token> = Spanned { node, span };
                        let ghost tv = t.deep_view();
                        out.push(t);
                        assert(out.deep_view() == before.push(tv));
                    },
                    Err(message) => {
                        return Err(LexError { message, span });
                    },
                }
                k = k + 1;
            }
            Ok(out)
        },
    }
}

/// Whether one place, as a line and a column, stands before another.
pub open spec fn before(a: (int, int), b: (int, int)) -> bool {
    a.0 < b.0 || (a.0 == b.0 && a.1 < b.1)
}

/// A place further on in a text has a later line, or the same line and a later column.
pub proof fn places_grow(src: Text, i: int, j: int)
    requires
        0 <= i < j,
    ensures
        before(line_col(src, i), line_col(src, j)),
    decreases j,
{
    line_col_bounds(src, i);
    line_col_bounds(src, j - 1);
    if i < j - 1 {
        places_grow(src, i, j - 1);
    }
}

/// The start of a region, as a line and a column.
pub open spec fn start_of(span: SpanV) -> (int, int) {
    (span.start_line as int, span.start_col as int)
}

/// The end of a region, as a line and a column.
pub open spec fn end_of(span: SpanV) -> (int, int) {
    (span.end_line as int, span.end_col as int)
}

/// The tokens start one behind the other, and each ends behind its start.
pub open spec fn tokens_in_sequence(tokens: Seq<TokV>) -> bool {
    &&& forall|a: int, b: int|
        0 <= a < b < tokens.len() ==> before(
            start_of((#[trigger] tokens[a]).span),
            start_of((#[trigger] tokens[b]).span),
        )
    &&& forall|a: int|
        0 <= a < tokens.len() ==> before(
            start_of((#[trigger] tokens[a]).span),
            end_of(tokens[a].span),
        )
}

/// The region of lexeme `k` starts and ends where the lexeme does.
proof fn region_is_exact(src: Text, file: Text, l: LexemeV)
    requires
        src.len() < u32::MAX,
        inside(src, l),
    ensures
        start_of(region(src, file, l.start, l.end)) == line_col(src, l.start),
        end_of(region(src, file, l.start, l.end)) == line_col(src, l.end),
{
    line_col_bounds(src, l.start);
    line_col_bounds(src, l.end);
}

proof fn tokens_from_are_lexemes(
    src: Text,
    file: Text,
    ls: Seq<LexemeV>,
    k: int,
    made: Seq<TokV>,
)
    requires
        0 <= k <= ls.len(),
        made.len() == k,
        forall|a: int|
            0 <= a < k ==> (#[trigger] made[a]).span == region(src, file, ls[a].start, ls[a].end),
    ensures
        tokens_from(src, file, ls, k, made) matches Ok(ts) ==> ts.len() == ls.len() && forall|
            a: int,
        |
            0 <= a < ts.len() ==> (#[trigger] ts[a]).span == region(
                src,
                file,
                ls[a].start,
                ls[a].end,
            ),
    decreases ls.len() - k,
{
    if k < ls.len() {
        let span = region(src, file, ls[k].start, ls[k].end);
        match token_of(ls[k].kind, immediate(ls, k)) {
            Ok(tok) => {
                tokens_from_are_lexemes(src, file, ls, k + 1, made.push(TokV { tok, span }));
            },
            Err(_) => {},
        }
    }
}

/// No two tokens of a source start at the same place: they start one behind the other.
pub proof fn tokens_start_apart(src: Text, file: Text)
    requires
        src.len() < u32::MAX,
    ensures
        tokens_of(src, file) matches Ok(ts) ==> tokens_in_sequence(ts),
{
    lexemes_in_order(src);
    match lexemes(src) {
        Ok(ls) => {
            tokens_from_are_lexemes(src, file, ls, 0, Seq::empty());
            match tokens_of(src, file) {
                Ok(ts) => {
                    assert forall|a: int, b: int| 0 <= a < b < ts.len() implies before(
                        start_of((#[trigger] ts[a]).span),
                        start_of((#[trigger] ts[b]).span),
                    ) by {
                        assert(inside(src, ls[a]) && inside(src, ls[b]));
                        region_is_exact(src, file, ls[a]);
                        region_is_exact(src, file, ls[b]);
                        places_grow(src, ls[a].start, ls[b].start);
                    }
                    assert forall|a: int| 0 <= a < ts.len() implies before(
                        start_of((#[trigger] ts[a]).span),
                        end_of(ts[a].span),
                    ) by {
                        assert(inside(src, ls[a]));
                        region_is_exact(src, file, ls[a]);
                        places_grow(src, ls[a].start, ls[a].end);
                    }
                },
                Err(_) => {},
            }
        },
        Err(_) => {},
    }
}

/// A numeral is a row of digits that writes its number.
pub proof fn decimal_is_digits(n: nat)
    ensures
        all_digits(decimal(n)),
        decimal(n).len() > 0,
        digits_value(decimal(n)) == n,
    decreases n,
{
    reveal_with_fuel(digits_value, 2);
    if n < 10 {
        assert(decimal(n).drop_last() =~= Seq::empty());
    } else {
        decimal_is_digits(n / 10);
        assert(decimal(n).drop_last() =~= decimal(n / 10));
        assert(decimal(n).last() == digit_char(n % 10));
    }
}

/// The numeral that is written for a signed integer is read back as that integer.
pub proof fn numeral_reads_back(n: i64)
    ensures
        int_token(int_text(n as int)) == Ok::<TokenV, Text>(TokenV::Int(n)),
{
    if n < 0 {
        let m = (-(n as int)) as nat;
        decimal_is_digits(m);
        assert(int_text(n as int).skip(1) =~= decimal(m));
    } else {
        decimal_is_digits(n as nat);
        assert(digit(decimal(n as nat)[0]));
    }
}

/// Two integers with the same numeral are the same integer.
pub proof fn numerals_differ(a: int, b: int)
    requires
        int_text(a) == int_text(b),
    ensures
        a == b,
{
    let m = (if a < 0 {
        -a
    } else {
        a
    }) as nat;
    let n = (if b < 0 {
        -b
    } else {
        b
    }) as nat;
    decimal_is_digits(m);
    decimal_is_digits(n);
    assert(digit(decimal(m)[0]) && digit(decimal(n)[0]));
    assert(int_text(a)[0] == int_text(b)[0]);
    if a < 0 {
        assert(int_text(a).skip(1) =~= decimal(m));
        assert(int_text(b).skip(1) =~= decimal(n));
    }
}

} // verus!
