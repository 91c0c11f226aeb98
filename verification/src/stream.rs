//! The token stream: looking ahead, skipping line ends, and the comments that are met on the way.
use crate::ast::Spanned;
use crate::lexer::{tokens_of, tokens_start_apart, TokV, Token, TokenV};
use crate::model::{SpanV, Text};
use std::collections::BTreeMap;
use vstd::prelude::*;

verus! {

/// The comments of a source and its blank lines, by the place of the token they belong to.
pub struct Comments {
    /// The comments before a token.
    pub leading: BTreeMap<u64, Vec<String>>,
    /// The comment behind a token, on its line.
    pub trailing: BTreeMap<u64, String>,
    /// Whether a blank line stands before a token.
    pub blank_before: BTreeMap<u64, bool>,
}

#[verifier::ext_equal]
pub struct CommentsV {
    pub leading: Map<u64, Seq<Text>>,
    pub trailing: Map<u64, Text>,
    pub blank_before: Map<u64, bool>,
}

/// The models of the values of a map.
pub open spec fn deep_values<T: DeepView>(m: Map<u64, T>) -> Map<u64, T::V> {
    Map::new(|k: u64| m.contains_key(k), |k: u64| m[k].deep_view())
}

impl DeepView for Comments {
    type V = CommentsV;

    open spec fn deep_view(&self) -> CommentsV {
        CommentsV {
            leading: deep_values(self.leading@),
            trailing: deep_values(self.trailing@),
            blank_before: self.blank_before@,
        }
    }
}

/// The key of a place in the comment maps.
pub open spec fn place_key(line: u32, col: u32) -> u64 {
    (line * 0x1_0000_0000 + col) as u64
}

/// The key of the place where a region starts.
pub open spec fn start_key(span: SpanV) -> u64 {
    place_key(span.start_line, span.start_col)
}

/// Two places with the same key are the same place.
pub proof fn place_key_unique(line1: u32, col1: u32, line2: u32, col2: u32)
    requires
        place_key(line1, col1) == place_key(line2, col2),
    ensures
        line1 == line2,
        col1 == col2,
{
}

/// No two tokens of a source share a key.
pub proof fn token_keys_differ(src: Text, file: Text, a: int, b: int)
    requires
        src.len() < u32::MAX,
    ensures
        tokens_of(src, file) matches Ok(ts) ==> (0 <= a < b < ts.len() ==> start_key(ts[a].span)
            != start_key(ts[b].span)),
{
    tokens_start_apart(src, file);
    match tokens_of(src, file) {
        Ok(ts) => {
            if 0 <= a < b < ts.len() && start_key(ts[a].span) == start_key(ts[b].span) {
                place_key_unique(
                    ts[a].span.start_line,
                    ts[a].span.start_col,
                    ts[b].span.start_line,
                    ts[b].span.start_col,
                );
            }
        },
        Err(_) => {},
    }
}

/// The key of a place in the comment maps.
pub fn span_key(line: u32, col: u32) -> (r: u64)
    ensures
        r == place_key(line, col),
{
    assert(((line as u64) << 32) | (col as u64) == (line as u64) * 0x1_0000_0000 + (col as u64))
        by (bit_vector);
    ((line as u64) << 32) | (col as u64)
}

/// Whether a token ends a line.
pub open spec fn ends_line(t: TokenV) -> bool {
    t is Newline || t is Semicolon
}

/// Whether a token carries no meaning of its own.
pub open spec fn insignificant(t: TokenV) -> bool {
    ends_line(t) || t is Comment
}

/// The first place from `i` on with a token that carries meaning, or the end.
pub open spec fn next_significant(tokens: Seq<TokV>, i: int) -> int
    decreases tokens.len() - i,
{
    if 0 <= i < tokens.len() && insignificant(tokens[i].tok) {
        next_significant(tokens, i + 1)
    } else {
        i
    }
}

/// The first place from `i` on without a comment, or the end.
pub open spec fn next_horizontal(tokens: Seq<TokV>, i: int) -> int
    decreases tokens.len() - i,
{
    if 0 <= i < tokens.len() && tokens[i].tok is Comment {
        next_horizontal(tokens, i + 1)
    } else {
        i
    }
}

/// Whether the token behind place `i`, comments aside, is of the given kind.
pub open spec fn colon_follows(tokens: Seq<TokV>, i: int) -> bool {
    let j = next_horizontal(tokens, i + 1);
    0 <= j < tokens.len() && tokens[j].tok is Colon
}

pub open spec fn immediate_at_follows(tokens: Seq<TokV>, i: int) -> bool {
    let j = next_horizontal(tokens, i + 1);
    0 <= j < tokens.len() && tokens[j].tok is ImmediateAt
}

/// Whether the token at place `i` is an annotation sign right behind a value.
pub open spec fn is_immediate_at(tokens: Seq<TokV>, i: int) -> bool {
    0 <= i < tokens.len() && tokens[i].tok is ImmediateAt
}

/// The texts of the comments among the tokens `i..j`.
pub open spec fn comments_between(tokens: Seq<TokV>, i: int, j: int) -> Seq<Text>
    decreases j - i,
{
    if j <= i {
        Seq::empty()
    } else {
        match tokens[j - 1].tok {
            TokenV::Comment(text) => comments_between(tokens, i, j - 1).push(text),
            _ => comments_between(tokens, i, j - 1),
        }
    }
}

/// Whether two line ends follow each other among the tokens `i..j`.
pub open spec fn blank_between(tokens: Seq<TokV>, i: int, j: int) -> bool {
    exists|k: int|
        i <= k && k + 1 < j && ends_line((#[trigger] tokens[k]).tok) && ends_line(
            tokens[k + 1].tok,
        )
}

/// The leading comments with more texts for one place.
pub open spec fn add_leading(
    leading: Map<u64, Seq<Text>>,
    key: u64,
    texts: Seq<Text>,
) -> Map<u64, Seq<Text>> {
    leading.insert(
        key,
        if leading.contains_key(key) {
            leading[key] + texts
        } else {
            texts
        },
    )
}

/// The comments after the stream is skipped from place `i` to the next token with meaning: that
/// token gets the comments, and the mark of a blank line.
#[verifier::opaque]
pub open spec fn skipped(tokens: Seq<TokV>, i: int, c: CommentsV) -> CommentsV {
    let j = next_significant(tokens, i);
    if j < tokens.len() {
        let key = start_key(tokens[j].span);
        let texts = comments_between(tokens, i, j);
        CommentsV {
            leading: if texts.len() > 0 {
                add_leading(c.leading, key, texts)
            } else {
                c.leading
            },
            trailing: c.trailing,
            blank_before: if blank_between(tokens, i, j) {
                c.blank_before.insert(key, true)
            } else {
                c.blank_before
            },
        }
    } else {
        c
    }
}

/// The next token with meaning is not before the place where the search starts.
pub proof fn next_significant_bounds(tokens: Seq<TokV>, i: int)
    requires
        0 <= i <= tokens.len(),
    ensures
        i <= next_significant(tokens, i) <= tokens.len(),
        forall|k: int|
            i <= k < next_significant(tokens, i) ==> insignificant((#[trigger] tokens[k]).tok),
        next_significant(tokens, i) < tokens.len() ==> !insignificant(
            tokens[next_significant(tokens, i)].tok,
        ),
    decreases tokens.len() - i,
{
    if i < tokens.len() && insignificant(tokens[i].tok) {
        next_significant_bounds(tokens, i + 1);
    }
}

/// The place of the next token with meaning, from place `from` on.
pub fn find_significant(tokens: &Vec<Spanned<Token>>, from: usize) -> (r: usize)
    requires
        from <= tokens@.len(),
    ensures
        r == next_significant(tokens.deep_view(), from as int),
        from <= r <= tokens@.len(),
{
    let mut i: usize = from;
    while i < tokens.len()
        invariant
            from <= i <= tokens@.len(),
            next_significant(tokens.deep_view(), i as int) == next_significant(
                tokens.deep_view(),
                from as int,
            ),
        decreases tokens@.len() - i,
    {
        assert(tokens.deep_view()[i as int] == tokens@[i as int].deep_view());
        match &tokens[i].node {
            Token::Newline | Token::Semicolon | Token::Comment(_) => {
                i = i + 1;
            },
            _ => {
                return i;
            },
        }
    }
    i
}

/// The next token with meaning behind place `current`, and its place.
pub fn peek_next_significant(tokens: &Vec<Spanned<Token>>, current: usize) -> (r: Option<
    (&Token, usize),
>)
    requires
        current < tokens@.len(),
    ensures
        match r {
            Some((t, j)) => {
                &&& j == next_significant(tokens.deep_view(), current + 1)
                &&& current < j < tokens@.len()
                &&& *t == tokens@[j as int].node
                &&& t.deep_view() == tokens.deep_view()[j as int].tok
            },
            None => next_significant(tokens.deep_view(), current + 1) == tokens@.len(),
        },
{
    let n: usize = tokens.len();
    let j: usize = find_significant(tokens, current + 1);
    if j < n {
        assert(tokens.deep_view()[j as int] == tokens@[j as int].deep_view());
        Some((&tokens[j].node, j))
    } else {
        None
    }
}

/// The next token behind place `current` that is no comment, and its place.
pub fn peek_next_horizontal(tokens: &Vec<Spanned<Token>>, current: usize) -> (r: Option<
    (&Token, usize),
>)
    requires
        current < tokens@.len(),
    ensures
        match r {
            Some((t, j)) => {
                &&& j == next_horizontal(tokens.deep_view(), current + 1)
                &&& current < j < tokens@.len()
                &&& t.deep_view() == tokens.deep_view()[j as int].tok
            },
            None => next_horizontal(tokens.deep_view(), current + 1) == tokens@.len(),
        },
{
    let n: usize = tokens.len();
    let mut i: usize = current + 1;
    while i < n
        invariant
            current < i <= n,
            n == tokens@.len(),
            next_horizontal(tokens.deep_view(), i as int) == next_horizontal(
                tokens.deep_view(),
                current + 1,
            ),
        decreases tokens@.len() - i,
    {
        assert(tokens.deep_view()[i as int] == tokens@[i as int].deep_view());
        match &tokens[i].node {
            Token::Comment(_) => {
                i = i + 1;
            },
            t => {
                return Some((t, i));
            },
        }
    }
    None
}

/// Whether a colon follows place `current`, comments aside.
pub fn has_colon_after(tokens: &Vec<Spanned<Token>>, current: usize) -> (b: bool)
    requires
        current < tokens@.len(),
    ensures
        b == colon_follows(tokens.deep_view(), current as int),
{
    match peek_next_horizontal(tokens, current) {
        Some((Token::Colon, _)) => true,
        _ => false,
    }
}

/// Whether an annotation sign follows place `current`, comments aside.
pub fn has_immediate_at_after(tokens: &Vec<Spanned<Token>>, current: usize) -> (b: bool)
    requires
        current < tokens@.len(),
    ensures
        b == immediate_at_follows(tokens.deep_view(), current as int),
{
    match peek_next_horizontal(tokens, current) {
        Some((Token::ImmediateAt, _)) => true,
        _ => false,
    }
}

/// Whether the token at place `i` is an annotation sign right behind a value.
pub fn immediate_at(tokens: &Vec<Spanned<Token>>, i: usize) -> (b: bool)
    ensures
        b == is_immediate_at(tokens.deep_view(), i as int),
{
    if i < tokens.len() {
        assert(tokens.deep_view()[i as int] == tokens@[i as int].deep_view());
        matches!(&tokens[i].node, Token::ImmediateAt)
    } else {
        false
    }
}

/// Adds comments before the token at a place.
pub fn add_leading_comments(
    leading: &mut BTreeMap<u64, Vec<String>>,
    key: u64,
    texts: Vec<String>,
)
    ensures
        deep_values(final(leading)@) == add_leading(
            deep_values(old(leading)@),
            key,
            texts.deep_view(),
        ),
{
    broadcast use crate::model::group_models;

    let ghost before = leading@;
    let mut added: Vec<String> = texts;
    match leading.remove(&key) {
        Some(v) => {
            let mut all: Vec<String> = v;
            all.append(&mut added);
            leading.insert(key, all);
            assert(leading@ =~= before.insert(key, all));
        },
        None => {
            leading.insert(key, added);
            assert(leading@ =~= before.insert(key, added));
        },
    }
    assert(deep_values(leading@) =~= add_leading(deep_values(before), key, texts.deep_view()));
}

/// Skips line ends and comments from place `from` on. The comments, and the mark of a blank line,
/// go to the token that follows. Returns the place of that token, or the end.
pub fn skip_whitespace_tokens(
    tokens: &Vec<Spanned<Token>>,
    from: usize,
    comments: &mut Comments,
) -> (r: usize)
    requires
        from <= tokens@.len(),
    ensures
        r == next_significant(tokens.deep_view(), from as int),
        from <= r <= tokens@.len(),
        final(comments).deep_view() == skipped(
            tokens.deep_view(),
            from as int,
            old(comments).deep_view(),
        ),
{
    broadcast use crate::model::group_models;

    reveal(skipped);
    let ghost ts = tokens.deep_view();
    let end: usize = find_significant(tokens, from);
    if end >= tokens.len() {
        return end;
    }
    proof {
        next_significant_bounds(ts, from as int);
    }
    let mut texts: Vec<String> = Vec::new();
    let mut after_line_end: bool = false;
    let mut blank: bool = false;
    let mut i: usize = from;
    while i < end
        invariant
            from <= i <= end < tokens@.len(),
            ts == tokens.deep_view(),
            forall|k: int| from <= k < end ==> insignificant((#[trigger] ts[k]).tok),
            texts.deep_view() == comments_between(ts, from as int, i as int),
            after_line_end == (i > from && ends_line(ts[i - 1].tok)),
            blank == blank_between(ts, from as int, i as int),
        decreases end - i,
    {
        let ghost collected = texts.deep_view();
        assert(ts[i as int] == tokens@[i as int].deep_view());
        match &tokens[i].node {
            Token::Comment(text) => {
                texts.push(text.clone());
                assert(texts.deep_view() == collected.push(text@));
                after_line_end = false;
                assert(blank_between(ts, from as int, i + 1) == blank_between(
                    ts,
                    from as int,
                    i as int,
                )) by {
                    if blank_between(ts, from as int, i + 1) {
                        let k = choose|k: int|
                            from <= k && k + 1 < i + 1 && ends_line((#[trigger] ts[k]).tok)
                                && ends_line(ts[k + 1].tok);
                        assert(k + 1 < i);
                    }
                }
            },
            _ => {
                assert(ends_line(ts[i as int].tok));
                if after_line_end {
                    blank = true;
                    assert(ends_line(ts[i - 1].tok) && ends_line(ts[(i - 1) + 1].tok));
                } else {
                    assert(blank_between(ts, from as int, i + 1) == blank_between(
                        ts,
                        from as int,
                        i as int,
                    )) by {
                        if blank_between(ts, from as int, i + 1) {
                            let k = choose|k: int|
                                from <= k && k + 1 < i + 1 && ends_line((#[trigger] ts[k]).tok)
                                    && ends_line(ts[k + 1].tok);
                            assert(k + 1 < i);
                        }
                    }
                }
                after_line_end = true;
            },
        }
        i = i + 1;
    }
    assert(ts[end as int] == tokens@[end as int].deep_view());
    let key: u64 = span_key(tokens[end].span.start_line, tokens[end].span.start_col);
    if texts.len() > 0 {
        add_leading_comments(&mut comments.leading, key, texts);
    }
    if blank {
        comments.blank_before.insert(key, true);
    }
    end
}

/// The place of the bracket that closes a form, searched from place `i` on inside `depth` open
/// brackets; the end where there is none.
pub open spec fn closing_place(tokens: Seq<TokV>, i: int, depth: int) -> int
    decreases tokens.len() - i,
{
    if i < 0 || i >= tokens.len() {
        tokens.len() as int
    } else {
        match tokens[i].tok {
            TokenV::OpenBracket => closing_place(tokens, i + 1, depth + 1),
            TokenV::CloseBracket => if depth <= 1 {
                i
            } else {
                closing_place(tokens, i + 1, depth - 1)
            },
            _ => closing_place(tokens, i + 1, depth),
        }
    }
}

/// The closing bracket is not before the place where the search starts.
pub proof fn closing_place_bounds(tokens: Seq<TokV>, i: int, depth: int)
    requires
        0 <= i <= tokens.len(),
    ensures
        i <= closing_place(tokens, i, depth) <= tokens.len(),
        closing_place(tokens, i, depth) < tokens.len() ==> tokens[closing_place(
            tokens,
            i,
            depth,
        )].tok is CloseBracket,
    decreases tokens.len() - i,
{
    if i < tokens.len() {
        match tokens[i].tok {
            TokenV::OpenBracket => closing_place_bounds(tokens, i + 1, depth + 1),
            TokenV::CloseBracket => if depth > 1 {
                closing_place_bounds(tokens, i + 1, depth - 1);
            },
            _ => closing_place_bounds(tokens, i + 1, depth),
        }
    }
}

/// The place of the bracket that closes the form which the token at `from` stands in; the number of
/// tokens where there is none.
pub fn skip_to_closing_bracket(tokens: &Vec<Spanned<Token>>, from: usize) -> (r: usize)
    requires
        from <= tokens@.len(),
    ensures
        r == closing_place(tokens.deep_view(), from as int, 1),
        from <= r <= tokens@.len(),
        r < tokens@.len() ==> tokens@[r as int].node is CloseBracket,
{
    let n: usize = tokens.len();
    let mut nested: usize = 0;
    let mut i: usize = from;
    while i < n
        invariant
            from <= i <= n,
            n == tokens@.len(),
            nested <= i - from,
            closing_place(tokens.deep_view(), i as int, nested + 1) == closing_place(
                tokens.deep_view(),
                from as int,
                1,
            ),
        decreases n - i,
    {
        assert(tokens.deep_view()[i as int] == tokens@[i as int].deep_view());
        match &tokens[i].node {
            Token::OpenBracket => {
                nested = nested + 1;
            },
            Token::CloseBracket => {
                if nested == 0 {
                    return i;
                }
                nested = nested - 1;
            },
            _ => {},
        }
        i = i + 1;
    }
    n
}

/// What a token does to the number of open brackets.
pub open spec fn nesting_of(t: TokenV) -> int {
    match t {
        TokenV::OpenBracket => 1,
        TokenV::CloseBracket => -1,
        _ => 0,
    }
}

/// How many more brackets are opened than closed by the tokens `i..j`.
pub open spec fn nesting(tokens: Seq<TokV>, i: int, j: int) -> int
    decreases j - i,
{
    if j <= i {
        0
    } else {
        nesting(tokens, i, j - 1) + nesting_of(tokens[j - 1].tok)
    }
}

proof fn nesting_from_next(tokens: Seq<TokV>, i: int, j: int)
    requires
        i < j,
    ensures
        nesting(tokens, i, j) == nesting_of(tokens[i].tok) + nesting(tokens, i + 1, j),
    decreases j - i,
{
    reveal_with_fuel(nesting, 2);
    if i + 1 < j {
        nesting_from_next(tokens, i, j - 1);
    }
}

/// Whether the token at `p` closes the outermost of `depth` brackets that are open at place `i`.
pub open spec fn closes(tokens: Seq<TokV>, i: int, depth: int, p: int) -> bool {
    tokens[p].tok is CloseBracket && depth + nesting(tokens, i, p) == 1
}

/// Recovery skips to the bracket that closes the form: the first closing bracket before which one
/// bracket is open, counting the `depth` brackets that are open at place `i`.
pub proof fn closing_place_is_first(tokens: Seq<TokV>, i: int, depth: int)
    requires
        0 <= i <= tokens.len(),
        1 <= depth,
    ensures
        closing_place(tokens, i, depth) < tokens.len() ==> closes(
            tokens,
            i,
            depth,
            closing_place(tokens, i, depth),
        ),
        forall|p: int|
            i <= p < closing_place(tokens, i, depth) ==> !#[trigger] closes(tokens, i, depth, p),
    decreases tokens.len() - i,
{
    if i < tokens.len() {
        let end = closing_place(tokens, i, depth);
        closing_place_bounds(tokens, i, depth);
        if !(tokens[i].tok is CloseBracket && depth <= 1) {
            let d = depth + nesting_of(tokens[i].tok);
            closing_place_is_first(tokens, i + 1, d);
            closing_place_bounds(tokens, i + 1, d);
            if end < tokens.len() {
                nesting_from_next(tokens, i, end);
            }
            assert forall|p: int| i <= p < end implies !#[trigger] closes(tokens, i, depth, p) by {
                if i < p {
                    nesting_from_next(tokens, i, p);
                    assert(!closes(tokens, i + 1, d, p));
                }
            }
        }
    }
}

} // verus!
