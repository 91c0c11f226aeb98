//! Strings and quotation marks: a string stands only where the source has quotation marks, and a
//! quotation mark that nothing closes is refused.
use crate::lexer::{immediate, region, token_of, tokens_from, tokens_of, TokV};
use crate::model::Text;
use crate::scan::{
    closing_quotes, delimiter, found_at, inside, lexemes, lexemes_from, lexemes_in_order, quotes_at,
    word_end, FoundV, KindV, LexemeV,
};
use vstd::prelude::*;

verus! {

/// Whether a lexeme is what is found where it starts.
spec fn found_there(src: Text, l: LexemeV) -> bool {
    found_at(src, l.start, true) == FoundV::Lexeme(l) || found_at(src, l.start, false)
        == FoundV::Lexeme(l)
}

proof fn lexemes_are_found(src: Text, i: int, found: Seq<LexemeV>)
    requires
        0 <= i,
        forall|k: int| 0 <= k < found.len() ==> found_there(src, #[trigger] found[k]),
    ensures
        lexemes_from(src, i, found) matches Ok(ls) ==> forall|k: int|
            0 <= k < ls.len() ==> found_there(src, #[trigger] ls[k]),
    decreases src.len() - i,
{
    if i < src.len() {
        match found_at(src, i, found.len() > 0 && found.last().kind is Dot) {
            FoundV::Skip => lexemes_are_found(src, i + 1, found),
            FoundV::Lexeme(l) => if i < l.end <= src.len() {
                lexemes_are_found(src, l.end, found.push(l));
            },
            FoundV::Stop(_) => {},
        }
    }
}

proof fn closing_quotes_close(src: Text, i: int, width: int)
    requires
        0 < width,
        0 <= i,
    ensures
        closing_quotes(src, i, width) matches Some(e) ==> i <= e && quotes_at(src, e, width),
    decreases src.len() - i,
{
    if i < src.len() && !quotes_at(src, i, width) {
        if src[i] == '\\' && i + 1 < src.len() {
            closing_quotes_close(src, i + 2, width);
        } else {
            closing_quotes_close(src, i + 1, width);
        }
    }
}

proof fn word_goes_on(src: Text, i: int)
    requires
        0 <= i,
    ensures
        i <= word_end(src, i),
    decreases src.len() - i,
{
    if i < src.len() && !delimiter(src[i]) {
        word_goes_on(src, i + 1);
    }
}

/// A string stands only where the source has quotation marks: its last character is one, and so is
/// the character right behind its prefix.
pub proof fn strings_have_quotation_marks(src: Text, k: int)
    requires
        lexemes(src) matches Ok(ls) && 0 <= k < ls.len(),
    ensures
        lexemes(src) matches Ok(ls) && (ls[k].kind matches KindV::Str { prefix, content, .. } ==> {
            &&& src[ls[k].start + prefix.len()] == '"'
            &&& src[ls[k].end - 1] == '"'
            &&& ls[k].start + prefix.len() < ls[k].end - 1
            &&& ls[k].start + prefix.len() + content.len() < ls[k].end
        }),
{
    lexemes_are_found(src, 0, Seq::empty());
    lexemes_in_order(src);
    assert(inside(src, lexemes(src)->Ok_0[k]));
    let l = lexemes(src)->Ok_0[k];
    assert(found_there(src, l));
    let i = l.start;
    word_goes_on(src, i);
    let q = if src[i] == '"' {
        i
    } else {
        word_end(src, i)
    };
    closing_quotes_close(src, q + 1, 1);
    closing_quotes_close(src, q + 3, 3);
    if l.kind is Str {
        let prefix = l.kind->Str_prefix;
        assert(prefix.len() == q - i);
        assert(src[q] == '"') by {
            if quotes_at(src, q, 3) {
            }
        }
    }
}

proof fn tokens_go_with_lexemes(src: Text, file: Text, ls: Seq<LexemeV>, k: int, made: Seq<TokV>)
    requires
        0 <= k <= ls.len(),
        made.len() == k,
        forall|j: int|
            0 <= j < k ==> (#[trigger] made[j]).tok is StringLiteral ==> ls[j].kind is Str,
    ensures
        tokens_from(src, file, ls, k, made) matches Ok(ts) ==> ts.len() == ls.len() && forall|j: int|
            0 <= j < ts.len() ==> (#[trigger] ts[j]).tok is StringLiteral ==> ls[j].kind is Str,
    decreases ls.len() - k,
{
    if k < ls.len() {
        match token_of(ls[k].kind, immediate(ls, k)) {
            Ok(tok) => {
                let span = region(src, file, ls[k].start, ls[k].end);
                tokens_go_with_lexemes(src, file, ls, k + 1, made.push(TokV { tok, span }));
            },
            Err(_) => {},
        }
    }
}

/// A source without quotation marks has no strings.
pub proof fn no_strings_without_quotation_marks(src: Text, file: Text, k: int)
    requires
        !src.contains('"'),
    ensures
        tokens_of(src, file) matches Ok(ts) ==> (0 <= k < ts.len() ==> !(ts[k].tok
            is StringLiteral)),
{
    match tokens_of(src, file) {
        Ok(ts) => {
            let ls = lexemes(src)->Ok_0;
            tokens_go_with_lexemes(src, file, ls, 0, Seq::empty());
            if 0 <= k < ts.len() && ts[k].tok is StringLiteral {
                strings_have_quotation_marks(src, k);
                lexemes_in_order(src);
                assert(inside(src, ls[k]));
                assert(src[ls[k].end - 1] == '"');
            }
        },
        Err(_) => {},
    }
}

proof fn nothing_closes(src: Text, i: int, width: int)
    requires
        0 <= i,
        0 < width,
        forall|k: int| i <= k < src.len() ==> #[trigger] src[k] != '"',
    ensures
        closing_quotes(src, i, width) is None,
    decreases src.len() - i,
{
    if i < src.len() {
        assert(src[i] != '"');
        nothing_closes(src, i + 1, width);
        if i + 1 < src.len() {
            nothing_closes(src, i + 2, width);
        }
    }
}

/// A quotation mark that nothing closes is refused where a lexeme starts with it: the error starts
/// there.
pub proof fn open_quotation_is_refused(src: Text, i: int, after_dot: bool)
    requires
        0 <= i < src.len(),
        src[i] == '"',
        forall|k: int| i < k < src.len() ==> #[trigger] src[k] != '"',
    ensures
        found_at(src, i, after_dot) matches FoundV::Stop(e) && e.start == i,
{
    nothing_closes(src, i + 1, 1);
    if quotes_at(src, i, 3) {
        assert(src[i + 1] == '"');
    }
}

} // verus!
