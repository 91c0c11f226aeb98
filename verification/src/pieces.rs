//! The tokens of the compact syntax, read off the lexemes of a source.
use crate::lexer::{
    immediate, int_token, kind_ends_value, line_col, line_col_bounds, make_int, Token, TokenV,
};
use crate::model::Text;
use crate::scan::{lexemes, scan, KindV, LexemeKind, LexemeV, ScanErrorV};
use crate::text::{
    byte_len, byte_len_adds_up, chars_of, count_bytes, debug_text, int_text, join3, quoted,
    signed_text, text_is,
};
use crate::tree::{Located, Position, Region};
use vstd::prelude::*;

verus! {

/// A token of the compact syntax.
#[derive(Debug, PartialEq)]
pub enum Piece {
    OpenBracket,
    /// `[` right behind a value.
    BracketAccess,
    CloseBracket,
    Colon,
    Int(i64),
    Float(String),
    BoolLit(bool),
    QuotedString(String),
    BareWord(String),
    /// `$name`
    VarRef(String),
    Comment(String),
    Newline,
    Semicolon,
    DocSeparator,
    Dot,
    Range,
    At,
    /// `@` right behind a value.
    ImmediateAt,
    Ellipsis,
}

pub enum PieceV {
    OpenBracket,
    BracketAccess,
    CloseBracket,
    Colon,
    Int(i64),
    Float(Text),
    BoolLit(bool),
    QuotedString(Text),
    BareWord(Text),
    VarRef(Text),
    Comment(Text),
    Newline,
    Semicolon,
    DocSeparator,
    Dot,
    Range,
    At,
    ImmediateAt,
    Ellipsis,
}

/// A token with its region.
pub struct PieceAtV {
    pub tok: PieceV,
    pub span: Region,
}

impl DeepView for Piece {
    type V = PieceV;

    open spec fn deep_view(&self) -> PieceV {
        match *self {
            Piece::OpenBracket => PieceV::OpenBracket,
            Piece::BracketAccess => PieceV::BracketAccess,
            Piece::CloseBracket => PieceV::CloseBracket,
            Piece::Colon => PieceV::Colon,
            Piece::Int(n) => PieceV::Int(n),
            Piece::Float(s) => PieceV::Float(s@),
            Piece::BoolLit(b) => PieceV::BoolLit(b),
            Piece::QuotedString(s) => PieceV::QuotedString(s@),
            Piece::BareWord(s) => PieceV::BareWord(s@),
            Piece::VarRef(s) => PieceV::VarRef(s@),
            Piece::Comment(s) => PieceV::Comment(s@),
            Piece::Newline => PieceV::Newline,
            Piece::Semicolon => PieceV::Semicolon,
            Piece::DocSeparator => PieceV::DocSeparator,
            Piece::Dot => PieceV::Dot,
            Piece::Range => PieceV::Range,
            Piece::At => PieceV::At,
            Piece::ImmediateAt => PieceV::ImmediateAt,
            Piece::Ellipsis => PieceV::Ellipsis,
        }
    }
}

impl DeepView for Located<Piece> {
    type V = PieceAtV;

    open spec fn deep_view(&self) -> PieceAtV {
        PieceAtV { tok: self.node.deep_view(), span: self.span }
    }
}

/// Why a source cannot be parsed, and where, if a place is known.
#[derive(Debug, PartialEq)]
pub struct ParseFailure {
    pub message: String,
    pub span: Option<Region>,
}

pub struct FailureV {
    pub message: Text,
    pub span: Option<Region>,
}

impl DeepView for ParseFailure {
    type V = FailureV;

    open spec fn deep_view(&self) -> FailureV {
        FailureV { message: self.message@, span: self.span }
    }
}

/// The position of place `i` of a text.
pub open spec fn position_of(src: Text, i: int) -> Position {
    Position {
        offset: byte_len(src.take(i)) as usize,
        line: line_col(src, i).0 as usize,
        column: line_col(src, i).1 as usize,
    }
}

/// The region of the characters `start..end` of a text.
pub open spec fn region_of(src: Text, start: int, end: int) -> Region {
    Region { start: position_of(src, start), end: position_of(src, end) }
}

/// The token of a lexeme, given whether a value ends right before it. Integers must fit the signed
/// range.
pub open spec fn piece_of(kind: KindV, follows: bool) -> Result<PieceV, Text> {
    match kind {
        KindV::Open => Ok(
            if follows {
                PieceV::BracketAccess
            } else {
                PieceV::OpenBracket
            },
        ),
        KindV::Close => Ok(PieceV::CloseBracket),
        KindV::Colon => Ok(PieceV::Colon),
        KindV::Semicolon => Ok(PieceV::Semicolon),
        KindV::Newline => Ok(PieceV::Newline),
        KindV::Pipe => Ok(PieceV::BareWord("|"@)),
        KindV::At => Ok(
            if follows {
                PieceV::ImmediateAt
            } else {
                PieceV::At
            },
        ),
        KindV::Dot => Ok(PieceV::Dot),
        KindV::Ellipsis => Ok(PieceV::Ellipsis),
        KindV::DocSeparator => Ok(PieceV::DocSeparator),
        KindV::Comment(s) => Ok(PieceV::Comment(s)),
        KindV::Str { content, .. } => Ok(PieceV::QuotedString(content)),
        KindV::Number { text, fraction } => if fraction {
            Ok(PieceV::Float(text))
        } else {
            match int_token(text) {
                Ok(TokenV::Int(n)) => Ok(PieceV::Int(n)),
                _ => Err("integer literal out of range"@),
            }
        },
        KindV::Word(s) => Ok(
            if s == "true"@ {
                PieceV::BoolLit(true)
            } else if s == "false"@ {
                PieceV::BoolLit(false)
            } else {
                PieceV::BareWord(s)
            },
        ),
        KindV::Ref(s) => Ok(PieceV::VarRef(s)),
    }
}

/// Whether lexeme `k` and the one right behind it are dots.
pub open spec fn is_range(ls: Seq<LexemeV>, k: int) -> bool {
    0 <= k && k + 1 < ls.len() && ls[k].kind is Dot && ls[k + 1].kind is Dot && ls[k].end
        == ls[k + 1].start
}

/// The tokens of the lexemes from `k` on, behind those already made.
pub open spec fn pieces_from(
    src: Text,
    ls: Seq<LexemeV>,
    k: int,
    made: Seq<PieceAtV>,
) -> Result<Seq<PieceAtV>, FailureV>
    decreases ls.len() - k,
{
    if k < 0 || k >= ls.len() {
        Ok(made)
    } else if is_range(ls, k) {
        pieces_from(
            src,
            ls,
            k + 2,
            made.push(
                PieceAtV {
                    tok: PieceV::Range,
                    span: region_of(src, ls[k].start, ls[k + 1].end),
                },
            ),
        )
    } else {
        let span = region_of(src, ls[k].start, ls[k].end);
        match piece_of(ls[k].kind, immediate(ls, k)) {
            Ok(tok) => pieces_from(src, ls, k + 1, made.push(PieceAtV { tok, span })),
            Err(message) => Err(FailureV { message, span: Some(span) }),
        }
    }
}

/// The tokens of a source.
pub open spec fn pieces_of(src: Text) -> Result<Seq<PieceAtV>, FailureV> {
    match lexemes(src) {
        Ok(ls) => pieces_from(src, ls, 0, Seq::empty()),
        Err(e) => Err(
            FailureV { message: e.message, span: Some(region_of(src, e.start, e.end)) },
        ),
    }
}

/// The rendering of a token in a message.
pub open spec fn piece_text(t: PieceV) -> Text {
    match t {
        PieceV::OpenBracket => "OpenBracket"@,
        PieceV::BracketAccess => "BracketAccess"@,
        PieceV::CloseBracket => "CloseBracket"@,
        PieceV::Colon => "Colon"@,
        PieceV::Int(n) => "Int("@ + int_text(n as int) + ")"@,
        PieceV::Float(s) => "Float("@ + s + ")"@,
        PieceV::BoolLit(b) => if b {
            "BoolLit(true)"@
        } else {
            "BoolLit(false)"@
        },
        PieceV::QuotedString(s) => "QuotedString("@ + debug_text(s) + ")"@,
        PieceV::BareWord(s) => "BareWord("@ + debug_text(s) + ")"@,
        PieceV::VarRef(s) => "VarRef("@ + debug_text(s) + ")"@,
        PieceV::Comment(s) => "Comment("@ + debug_text(s) + ")"@,
        PieceV::Newline => "Newline"@,
        PieceV::Semicolon => "Semicolon"@,
        PieceV::DocSeparator => "DocSeparator"@,
        PieceV::Dot => "Dot"@,
        PieceV::Range => "Range"@,
        PieceV::At => "At"@,
        PieceV::ImmediateAt => "ImmediateAt"@,
        PieceV::Ellipsis => "Ellipsis"@,
    }
}

/// The rendering of a token in a message.
pub fn describe_piece(t: &Piece) -> (r: String)
    ensures
        r@ == piece_text(t.deep_view()),
{
    match t {
        Piece::OpenBracket => "OpenBracket".to_owned(),
        Piece::BracketAccess => "BracketAccess".to_owned(),
        Piece::CloseBracket => "CloseBracket".to_owned(),
        Piece::Colon => "Colon".to_owned(),
        Piece::Int(n) => join3("Int(", signed_text(*n).as_str(), ")"),
        Piece::Float(s) => join3("Float(", s.as_str(), ")"),
        Piece::BoolLit(b) => if *b {
            "BoolLit(true)".to_owned()
        } else {
            "BoolLit(false)".to_owned()
        },
        Piece::QuotedString(s) => join3("QuotedString(", quoted(s.as_str()).as_str(), ")"),
        Piece::BareWord(s) => join3("BareWord(", quoted(s.as_str()).as_str(), ")"),
        Piece::VarRef(s) => join3("VarRef(", quoted(s.as_str()).as_str(), ")"),
        Piece::Comment(s) => join3("Comment(", quoted(s.as_str()).as_str(), ")"),
        Piece::Newline => "Newline".to_owned(),
        Piece::Semicolon => "Semicolon".to_owned(),
        Piece::DocSeparator => "DocSeparator".to_owned(),
        Piece::Dot => "Dot".to_owned(),
        Piece::Range => "Range".to_owned(),
        Piece::At => "At".to_owned(),
        Piece::ImmediateAt => "ImmediateAt".to_owned(),
        Piece::Ellipsis => "Ellipsis".to_owned(),
    }
}

/// How many bytes a character has.
fn char_bytes(c: char) -> (r: usize)
    ensures
        r == byte_len(seq![c]),
{
    let ghost one = seq![c];
    assert(one.drop_first() =~= Seq::empty());
    assert(vstd::utf8::encode_utf8(one.drop_first()).len() == 0);
    let code: u32 = c as u32;
    if code <= 0x7f {
        1
    } else if code <= 0x7ff {
        2
    } else if code <= 0xffff {
        3
    } else {
        4
    }
}

/// The position of every place of a text, its end included.
fn all_positions(src: &Vec<char>) -> (r: Vec<Position>)
    requires
        src@.len() < usize::MAX,
        byte_len(src@) <= usize::MAX,
    ensures
        r@.len() == src@.len() + 1,
        forall|i: int| 0 <= i <= src@.len() ==> #[trigger] r@[i] == position_of(src@, i),
{
    let mut out: Vec<Position> = Vec::new();
    let mut at: Position = Position { offset: 0, line: 1, column: 1 };
    assert(src@.take(0) =~= Seq::empty());
    assert(byte_len(src@.take(0)) == 0);
    out.push(at);
    let mut i: usize = 0;
    while i < src.len()
        invariant
            i <= src@.len() < usize::MAX,
            byte_len(src@) <= usize::MAX,
            out@.len() == i + 1,
            at.offset == byte_len(src@.take(i as int)),
            at.line == line_col(src@, i as int).0,
            at.column == line_col(src@, i as int).1,
            forall|k: int| 0 <= k <= i ==> #[trigger] out@[k] == position_of(src@, k),
        decreases src@.len() - i,
    {
        let c: char = src[i];
        proof {
            line_col_bounds(src@, i as int);
            assert(src@.take(i + 1) =~= src@.take(i as int) + seq![c]);
            byte_len_adds_up(src@.take(i as int), seq![c]);
            assert(src@ =~= src@.take(i + 1) + src@.skip(i + 1));
            byte_len_adds_up(src@.take(i + 1), src@.skip(i + 1));
        }
        let offset: usize = at.offset + char_bytes(c);
        at = if c == '\n' {
            Position { offset, line: at.line + 1, column: 1 }
        } else {
            Position { offset, line: at.line, column: at.column + 1 }
        };
        i = i + 1;
        out.push(at);
    }
    out
}

fn make_piece(kind: &LexemeKind, follows: bool) -> (r: Result<Piece, String>)
    ensures
        match (r, piece_of(kind.deep_view(), follows)) {
            (Ok(t), Ok(m)) => t.deep_view() == m,
            (Err(e), Err(m)) => e@ == m,
            _ => false,
        },
{
    match kind {
        LexemeKind::Open => if follows {
            Ok(Piece::BracketAccess)
        } else {
            Ok(Piece::OpenBracket)
        },
        LexemeKind::Close => Ok(Piece::CloseBracket),
        LexemeKind::Colon => Ok(Piece::Colon),
        LexemeKind::Semicolon => Ok(Piece::Semicolon),
        LexemeKind::Newline => Ok(Piece::Newline),
        LexemeKind::Pipe => Ok(Piece::BareWord("|".to_owned())),
        LexemeKind::At => if follows {
            Ok(Piece::ImmediateAt)
        } else {
            Ok(Piece::At)
        },
        LexemeKind::Dot => Ok(Piece::Dot),
        LexemeKind::Ellipsis => Ok(Piece::Ellipsis),
        LexemeKind::DocSeparator => Ok(Piece::DocSeparator),
        LexemeKind::Comment(s) => Ok(Piece::Comment(s.clone())),
        LexemeKind::Str { content, .. } => Ok(Piece::QuotedString(content.clone())),
        LexemeKind::Number { text, fraction } => if *fraction {
            Ok(Piece::Float(text.clone()))
        } else {
            match make_int(text) {
                Ok(Token::Int(n)) => Ok(Piece::Int(n)),
                _ => Err("integer literal out of range".to_owned()),
            }
        },
        LexemeKind::Word(s) => if text_is(s, "true") {
            Ok(Piece::BoolLit(true))
        } else if text_is(s, "false") {
            Ok(Piece::BoolLit(false))
        } else {
            Ok(Piece::BareWord(s.clone()))
        },
        LexemeKind::Ref(s) => Ok(Piece::VarRef(s.clone())),
    }
}

/// Splits a source into the tokens of the compact syntax.
pub fn split_pieces(input: &str) -> (r: Result<Vec<Located<Piece>>, ParseFailure>)
    requires
        input@.len() < usize::MAX,
    ensures
        match (r, pieces_of(input@)) {
            (Ok(v), Ok(s)) => v.deep_view() == s,
            (Err(e), Err(m)) => e.deep_view() == m,
            _ => false,
        },
{
    broadcast use crate::model::group_models;

    let size: usize = count_bytes(input);
    let chars: Vec<char> = chars_of(input);
    let pos: Vec<Position> = all_positions(&chars);
    match scan(&chars) {
        Err(e) => Err(
            ParseFailure {
                message: e.message,
                span: Some(Region { start: pos[e.start], end: pos[e.end] }),
            },
        ),
        Ok(ls) => {
            let n: usize = ls.len();
            let mut out: Vec<Located<Piece>> = Vec::new();
            let mut k: usize = 0;
            while k < n
                invariant
                    k <= n,
                    n == ls@.len(),
                    chars@ == input@,
                    pos@.len() == chars@.len() + 1,
                    forall|i: int|
                        0 <= i <= chars@.len() ==> #[trigger] pos@[i] == position_of(chars@, i),
                    forall|j: int|
                        0 <= j < ls@.len() ==> (#[trigger] ls@[j]).start < ls@[j].end
                            <= chars@.len(),
                    lexemes(input@) == Ok::<Seq<LexemeV>, ScanErrorV>(ls.deep_view()),
                    pieces_from(input@, ls.deep_view(), k as int, out.deep_view()) == pieces_of(
                        input@,
                    ),
                decreases n - k,
            {
                let ghost all = ls.deep_view();
                let ghost before = out.deep_view();
                assert(all[k as int] == ls@[k as int].deep_view());
                if k > 0 {
                    assert(all[k - 1] == ls@[k - 1].deep_view());
                }
                let range: bool = if k < n - 1 {
                    assert(all[k + 1] == ls@[k + 1].deep_view());
                    matches!(&ls[k].kind, LexemeKind::Dot) && matches!(
                        &ls[k + 1].kind,
                        LexemeKind::Dot
                    ) && ls[k].end == ls[k + 1].start
                } else {
                    false
                };
                assert(range == is_range(all, k as int));
                if range {
                    let piece: Located<Piece> = Located {
                        node: Piece::Range,
                        span: Region { start: pos[ls[k].start], end: pos[ls[k + 1].end] },
                    };
                    let ghost pv = piece.deep_view();
                    out.push(piece);
                    assert(out.deep_view() == before.push(pv));
                    k = k + 2;
                } else {
                    let follows: bool = k > 0 && ls[k - 1].end == ls[k].start
                        && kind_ends_value(&ls[k - 1].kind);
                    assert(follows == immediate(all, k as int));
                    let span: Region = Region { start: pos[ls[k].start], end: pos[ls[k].end] };
                    match make_piece(&ls[k].kind, follows) {
                        Ok(node) => {
                            let piece: Located<Piece> = Located { node, span };
                            let ghost pv = piece.deep_view();
                            out.push(piece);
                            assert(out.deep_view() == before.push(pv));
                        },
                        Err(message) => {
                            return Err(ParseFailure { message, span: Some(span) });
                        },
                    }
                    k = k + 1;
                }
            }
            Ok(out)
        },
    }
}

} // verus!
