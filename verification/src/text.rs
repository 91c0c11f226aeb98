//! Text helpers: characters of a string, decimal numerals, character classes.
use vstd::prelude::*;

verus! {

/// `String::push` appends one character to the end of the string.
pub assume_specification[ String::push ](s: &mut String, c: char)
    ensures
        final(s)@ == old(s)@.push(c),
;

/// Whether a character has the Unicode property `Uppercase`.
pub uninterp spec fn is_upper(c: char) -> bool;

/// Whether a character has the Unicode property `Lowercase`.
pub uninterp spec fn is_lower(c: char) -> bool;

/// `char::is_uppercase` answers whether the character has the Unicode property `Uppercase`.
/// Among the ASCII characters those are the letters `A` to `Z`.
pub assume_specification[ char::is_uppercase ](c: char) -> (r: bool)
    ensures
        r == is_upper(c),
        (c as u32) < 128 ==> r == ('A' <= c && c <= 'Z'),
;

/// `char::is_lowercase` answers whether the character has the Unicode property `Lowercase`.
/// Among the ASCII characters those are the letters `a` to `z`.
pub assume_specification[ char::is_lowercase ](c: char) -> (r: bool)
    ensures
        r == is_lower(c),
        (c as u32) < 128 ==> r == ('a' <= c && c <= 'z'),
;

/// Whether a character has the Unicode property `White_Space`.
pub uninterp spec fn is_space(c: char) -> bool;

/// `char::is_whitespace` answers whether the character has the Unicode property `White_Space`.
/// Among the ASCII characters those are the space and the codes nine to thirteen.
pub assume_specification[ char::is_whitespace ](c: char) -> (r: bool)
    ensures
        r == is_space(c),
        (c as u32) < 128 ==> r == (c == ' ' || 9 <= (c as u32) <= 13),
;

/// The text that Rust's `Debug` formatting gives of a string: quoted, with escapes.
pub uninterp spec fn debug_text(s: Seq<char>) -> Seq<char>;

/// The `Debug` rendering of a string slice, through `format!("{:?}", ..)`. The rendering is a
/// function of the characters alone.
#[verifier::external_body]
pub(crate) fn quoted(s: &str) -> (r: String)
    ensures
        r@ == debug_text(s@),
{
    format!("{:?}", s)
}

/// The characters of a string slice, in order.
pub fn chars_of(s: &str) -> (r: Vec<char>)
    ensures
        r@ == s@,
{
    broadcast use vstd::string::group_string_axioms;

    let mut out: Vec<char> = Vec::new();
    for c in it: s.chars()
        invariant
            it.seq() == s@,
            out@ == s@.take(it.index()),
    {
        out.push(c);
        assert(out@ =~= s@.take(it.index() + 1));
    }
    assert(out@ =~= s@);
    out
}

/// The string of the characters `from..to` of a character vector.
pub fn slice_text(chars: &Vec<char>, from: usize, to: usize) -> (r: String)
    requires
        from <= to <= chars@.len(),
    ensures
        r@ == chars@.subrange(from as int, to as int),
{
    let mut out = String::new();
    let mut i: usize = from;
    while i < to
        invariant
            from <= i <= to <= chars@.len(),
            out@ == chars@.subrange(from as int, i as int),
        decreases to - i,
    {
        out.push(chars[i]);
        i = i + 1;
        assert(out@ =~= chars@.subrange(from as int, i as int));
    }
    out
}

/// Whether a string has exactly the characters of `t`.
pub fn text_is(s: &String, t: &str) -> (b: bool)
    ensures
        b == (s@ == t@),
{
    let owned: String = t.to_owned();
    *s == owned
}

/// Three pieces of text, one after the other.
pub fn join3(a: &str, b: &str, c: &str) -> (r: String)
    ensures
        r@ == a@ + b@ + c@,
{
    let mut out: String = a.to_owned();
    out.append(b);
    out.append(c);
    out
}

/// The character of a decimal digit.
pub open spec fn digit_char(d: nat) -> char {
    (48 + d) as char
}

/// The decimal numeral of a natural number, without leading zeros.
pub open spec fn decimal(n: nat) -> Seq<char>
    decreases n,
{
    if n < 10 {
        seq![digit_char(n)]
    } else {
        decimal(n / 10).push(digit_char(n % 10))
    }
}

/// The decimal numeral of an integer, with a minus sign in front of a negative one.
pub open spec fn int_text(n: int) -> Seq<char> {
    if n < 0 {
        seq!['-'] + decimal((-n) as nat)
    } else {
        decimal(n as nat)
    }
}

fn digit_of(d: u64) -> (c: char)
    requires
        d < 10,
    ensures
        c == digit_char(d as nat),
{
    let b: u8 = (48 + d) as u8;
    b as char
}

/// Appends the decimal numeral of `n`.
pub fn push_decimal(out: &mut String, n: u64)
    ensures
        final(out)@ == old(out)@ + decimal(n as nat),
    decreases n,
{
    if n < 10 {
        out.push(digit_of(n));
        assert(out@ =~= old(out)@ + decimal(n as nat));
    } else {
        push_decimal(out, n / 10);
        let ghost mid = out@;
        out.push(digit_of(n % 10));
        assert(out@ =~= old(out)@ + decimal(n as nat));
    }
}

/// The decimal numeral of a natural number.
pub fn decimal_text(n: u64) -> (r: String)
    ensures
        r@ == decimal(n as nat),
{
    let mut out = String::new();
    push_decimal(&mut out, n);
    assert(out@ =~= decimal(n as nat));
    out
}

/// The decimal numeral of a signed integer.
pub fn signed_text(n: i64) -> (r: String)
    ensures
        r@ == int_text(n as int),
{
    if n < 0 {
        let mut out = String::new();
        out.push('-');
        let m: u64 = (-(n as i128)) as u64;
        push_decimal(&mut out, m);
        assert(out@ =~= seq!['-'] + decimal((-(n as int)) as nat));
        out
    } else {
        decimal_text(n as u64)
    }
}

/// Whether the first character is uppercase (false for the empty text).
pub open spec fn starts_upper(s: Seq<char>) -> bool {
    s.len() > 0 && is_upper(s[0])
}

/// Whether the first character is lowercase (false for the empty text).
pub open spec fn starts_lower(s: Seq<char>) -> bool {
    s.len() > 0 && is_lower(s[0])
}

/// Whether every character is lowercase or an underscore.
pub open spec fn all_lower(s: Seq<char>) -> bool {
    forall|i: int| 0 <= i < s.len() ==> is_lower(#[trigger] s[i]) || s[i] == '_'
}

/// Whether a name starts with an uppercase character.
pub fn name_starts_upper(s: &String) -> (b: bool)
    ensures
        b == starts_upper(s@),
{
    let t: &str = s.as_str();
    if t.is_empty() {
        false
    } else {
        t.get_char(0).is_uppercase()
    }
}

/// Whether a name starts with a lowercase character.
pub fn name_starts_lower(s: &String) -> (b: bool)
    ensures
        b == starts_lower(s@),
{
    let t: &str = s.as_str();
    if t.is_empty() {
        false
    } else {
        t.get_char(0).is_lowercase()
    }
}

/// Whether a name is made of lowercase characters and underscores only.
pub fn name_all_lower(s: &String) -> (b: bool)
    ensures
        b == all_lower(s@),
{
    let chars: Vec<char> = chars_of(s.as_str());
    let mut i: usize = 0;
    while i < chars.len()
        invariant
            i <= chars@.len(),
            chars@ == s@,
            forall|j: int| 0 <= j < i ==> is_lower(#[trigger] s@[j]) || s@[j] == '_',
        decreases chars@.len() - i,
    {
        let c: char = chars[i];
        if !(c.is_lowercase() || c == '_') {
            assert(!(is_lower(s@[i as int]) || s@[i as int] == '_'));
            return false;
        }
        i = i + 1;
    }
    true
}

/// A row of digits without leading zeros; one digit stays.
pub open spec fn trim_left_zeros(s: Seq<char>) -> Seq<char>
    decreases s.len(),
{
    if s.len() > 1 && s[0] == '0' {
        trim_left_zeros(s.skip(1))
    } else {
        s
    }
}

/// A row of digits without trailing zeros.
pub open spec fn trim_right_zeros(s: Seq<char>) -> Seq<char>
    decreases s.len(),
{
    if s.len() > 0 && s.last() == '0' {
        trim_right_zeros(s.drop_last())
    } else {
        s
    }
}

/// The place of the first dot from `i` on, or the end of the text.
pub open spec fn dot_place(s: Seq<char>, i: int) -> int
    decreases s.len() - i,
{
    if 0 <= i < s.len() && s[i] != '.' {
        dot_place(s, i + 1)
    } else {
        i
    }
}

/// A decimal literal in its shortest form: no leading zeros, no trailing zeros behind the dot, and
/// no dot without a decimal part. The digits count, not the number that they round to: `0.3` and
/// `0.30000000000000001` have different forms.
pub open spec fn plain_decimal(s: Seq<char>) -> Seq<char> {
    let from: int = if s.len() > 0 && s[0] == '-' {
        1
    } else {
        0
    };
    let d = dot_place(s, from);
    let whole = s.take(from) + trim_left_zeros(s.subrange(from, d));
    let part = if d < s.len() {
        trim_right_zeros(s.skip(d + 1))
    } else {
        Seq::empty()
    };
    if part.len() == 0 {
        whole
    } else {
        whole + seq!['.'] + part
    }
}

/// A decimal literal in its shortest form.
pub fn shortest_decimal(text: &String) -> (r: String)
    ensures
        r@ == plain_decimal(text@),
{
    let chars: Vec<char> = chars_of(text.as_str());
    let n: usize = chars.len();
    let from: usize = if n > 0 && chars[0] == '-' {
        1
    } else {
        0
    };
    let mut d: usize = from;
    while d < n && chars[d] != '.'
        invariant
            from <= d <= n,
            n == chars@.len(),
            dot_place(chars@, d as int) == dot_place(chars@, from as int),
        decreases n - d,
    {
        d = d + 1;
    }
    let ghost whole = chars@.subrange(from as int, d as int);
    let mut lo: usize = from;
    while d - lo > 1 && chars[lo] == '0'
        invariant
            from <= lo <= d <= n,
            n == chars@.len(),
            whole == chars@.subrange(from as int, d as int),
            trim_left_zeros(chars@.subrange(lo as int, d as int)) == trim_left_zeros(whole),
        decreases d - lo,
    {
        assert(chars@.subrange(lo as int, d as int).skip(1) =~= chars@.subrange(
            lo + 1,
            d as int,
        ));
        lo = lo + 1;
    }
    assert(trim_left_zeros(whole) == chars@.subrange(lo as int, d as int));
    let mut out: String = slice_text(&chars, 0, from);
    let ghost sign = out@;
    out.append(slice_text(&chars, lo, d).as_str());
    assert(sign =~= chars@.take(from as int));
    if d < n {
        let ghost part = chars@.skip(d + 1);
        let mut hi: usize = n;
        assert(chars@.subrange(d + 1, hi as int) =~= part);
        while hi > d + 1 && chars[hi - 1] == '0'
            invariant
                d < n,
                d + 1 <= hi <= n,
                n == chars@.len(),
                part == chars@.skip(d + 1),
                trim_right_zeros(chars@.subrange(d + 1, hi as int)) == trim_right_zeros(part),
            decreases hi,
        {
            assert(chars@.subrange(d + 1, hi as int).drop_last() =~= chars@.subrange(
                d + 1,
                hi - 1,
            ));
            hi = hi - 1;
        }
        assert(trim_right_zeros(part) == chars@.subrange(d + 1, hi as int));
        if hi > d + 1 {
            out.push('.');
            out.append(slice_text(&chars, d + 1, hi).as_str());
            assert(out@ =~= plain_decimal(text@));
        } else {
            assert(out@ =~= plain_decimal(text@));
        }
    } else {
        assert(out@ =~= plain_decimal(text@));
    }
    out
}

/// A text without the white space at its start.
pub open spec fn trim_start(s: Seq<char>) -> Seq<char>
    decreases s.len(),
{
    if s.len() > 0 && is_space(s[0]) {
        trim_start(s.skip(1))
    } else {
        s
    }
}

/// A text without the white space at its end.
pub open spec fn trim_end(s: Seq<char>) -> Seq<char>
    decreases s.len(),
{
    if s.len() > 0 && is_space(s.last()) {
        trim_end(s.drop_last())
    } else {
        s
    }
}

/// A text without the white space at its ends.
pub open spec fn trimmed(s: Seq<char>) -> Seq<char> {
    trim_end(trim_start(s))
}

/// A text without the white space at its ends.
pub fn trim_text(s: &str) -> (r: String)
    ensures
        r@ == trimmed(s@),
{
    let chars: Vec<char> = chars_of(s);
    let n: usize = chars.len();
    let mut from: usize = 0;
    assert(s@.skip(0) =~= s@);
    while from < n && chars[from].is_whitespace()
        invariant
            from <= n,
            n == chars@.len(),
            chars@ == s@,
            trim_start(s@.skip(from as int)) == trim_start(s@),
        decreases n - from,
    {
        assert(s@.skip(from as int).skip(1) =~= s@.skip(from + 1));
        from = from + 1;
    }
    let ghost rest = s@.skip(from as int);
    let mut to: usize = n;
    assert(rest.take(n - from) =~= rest);
    while to > from && chars[to - 1].is_whitespace()
        invariant
            from <= to <= n,
            n == chars@.len(),
            chars@ == s@,
            rest == s@.skip(from as int),
            trim_end(rest.take(to - from)) == trim_end(rest),
        decreases to - from,
    {
        assert(rest.take(to - from).drop_last() =~= rest.take(to - from - 1));
        to = to - 1;
    }
    assert(chars@.subrange(from as int, to as int) =~= rest.take(to - from));
    slice_text(&chars, from, to)
}

/// The length of a text in bytes.
pub open spec fn byte_len(s: Seq<char>) -> nat {
    vstd::utf8::encode_utf8(s).len()
}

/// The bytes of a text are those of its parts.
pub proof fn byte_len_adds_up(a: Seq<char>, b: Seq<char>)
    ensures
        byte_len(a + b) == byte_len(a) + byte_len(b),
    decreases a.len(),
{
    if a.len() == 0 {
        assert(a + b =~= b);
    } else {
        assert((a + b).drop_first() =~= a.drop_first() + b);
        byte_len_adds_up(a.drop_first(), b);
    }
}

/// A text has no more characters than bytes.
pub proof fn byte_len_bound(s: Seq<char>)
    ensures
        s.len() <= byte_len(s),
    decreases s.len(),
{
    if s.len() > 0 {
        byte_len_bound(s.drop_first());
    }
}

/// The length of a text in bytes.
pub fn count_bytes(s: &str) -> (r: usize)
    ensures
        r == byte_len(s@),
{
    s.as_bytes().len()
}

} // verus!
