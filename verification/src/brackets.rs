//! Counting brackets: whether an input is complete.
use crate::model::Text;
use crate::text::chars_of;
use vstd::prelude::*;

verus! {

/// What a place of a line belongs to.
pub enum ModeV {
    Code,
    Literal,
    Escaped,
    Comment,
}

/// What the place behind a character belongs to.
pub open spec fn next_mode(m: ModeV, c: char) -> ModeV {
    match m {
        ModeV::Comment => ModeV::Comment,
        ModeV::Escaped => ModeV::Literal,
        ModeV::Literal => if c == '\\' {
            ModeV::Escaped
        } else if c == '"' {
            ModeV::Code
        } else {
            ModeV::Literal
        },
        ModeV::Code => if c == '"' {
            ModeV::Literal
        } else if c == '#' {
            ModeV::Comment
        } else {
            ModeV::Code
        },
    }
}

/// What place `i` of a line belongs to.
pub open spec fn mode_at(s: Text, i: int) -> ModeV
    decreases i,
{
    if i <= 0 {
        ModeV::Code
    } else {
        next_mode(mode_at(s, i - 1), s[i - 1])
    }
}

/// What a character of the code adds to the depth.
pub open spec fn bracket_weight(c: char) -> int {
    if c == '[' {
        1
    } else if c == ']' {
        -1
    } else {
        0
    }
}

/// How many brackets of the code are open before place `i` of a line.
pub open spec fn depth_at(s: Text, i: int) -> int
    decreases i,
{
    if i <= 0 {
        0
    } else {
        depth_at(s, i - 1) + if mode_at(s, i - 1) is Code {
            bracket_weight(s[i - 1])
        } else {
            0
        }
    }
}

/// How many brackets of the code a line leaves open.
pub open spec fn line_depth(s: Text) -> int {
    depth_at(s, s.len() as int)
}

/// How many brackets lines leave open, each counted on its own.
pub open spec fn total_depth(lines: Seq<Text>) -> int
    decreases lines.len(),
{
    if lines.len() == 0 {
        0
    } else {
        total_depth(lines.drop_last()) + line_depth(lines.last())
    }
}

/// How many characters lines have.
pub open spec fn total_length(lines: Seq<Text>) -> nat
    decreases lines.len(),
{
    if lines.len() == 0 {
        0
    } else {
        total_length(lines.drop_last()) + lines.last().len()
    }
}

/// A line opens and closes at most as many brackets as it has characters.
pub proof fn depth_bound(s: Text, i: int)
    requires
        0 <= i,
    ensures
        -i <= depth_at(s, i) <= i,
    decreases i,
{
    if i > 0 {
        depth_bound(s, i - 1);
    }
}

/// Whether the depth of a line fits its number all along the line.
pub open spec fn depth_fits(s: Text) -> bool {
    forall|i: int| 0 <= i <= s.len() ==> i32::MIN <= #[trigger] depth_at(s, i) <= i32::MAX
}

/// Whether the depth of lines fits its number all along the lines.
pub open spec fn depths_fit(lines: Seq<Text>) -> bool {
    &&& forall|k: int| 0 <= k < lines.len() ==> depth_fits(#[trigger] lines[k])
    &&& forall|k: int|
        0 <= k <= lines.len() ==> i32::MIN <= #[trigger] total_depth(lines.take(k)) <= i32::MAX
}

/// The depth of a line fits its number where the length of the line does.
pub proof fn short_line_fits(s: Text)
    requires
        s.len() <= i32::MAX,
    ensures
        depth_fits(s),
{
    assert forall|i: int| 0 <= i <= s.len() implies i32::MIN <= #[trigger] depth_at(s, i)
        <= i32::MAX by {
        depth_bound(s, i);
    }
}

/// The depth of lines fits its number where their length does.
pub proof fn short_lines_fit(lines: Seq<Text>)
    requires
        total_length(lines) <= i32::MAX,
    ensures
        depths_fit(lines),
{
    assert forall|k: int| 0 <= k < lines.len() implies depth_fits(#[trigger] lines[k]) by {
        prefix_length(lines, k);
        short_line_fits(lines[k]);
    }
    assert forall|k: int| 0 <= k <= lines.len() implies i32::MIN <= #[trigger] total_depth(
        lines.take(k),
    ) <= i32::MAX by {
        prefix_length(lines, k);
        total_depth_bound(lines.take(k));
    }
}

/// What depends on the start of a line alone stays when the line goes on.
proof fn prefix_depth(a: Text, b: Text, i: int)
    requires
        0 <= i <= a.len(),
    ensures
        mode_at(a + b, i) == mode_at(a, i),
        depth_at(a + b, i) == depth_at(a, i),
    decreases i,
{
    if i > 0 {
        prefix_depth(a, b, i - 1);
    }
}

proof fn suffix_depth(a: Text, b: Text, i: int)
    requires
        0 <= i <= b.len(),
        mode_at(a, a.len() as int) is Code,
    ensures
        mode_at(a + b, a.len() + i) == mode_at(b, i),
        depth_at(a + b, a.len() + i) == line_depth(a) + depth_at(b, i),
    decreases i,
{
    if i == 0 {
        prefix_depth(a, b, a.len() as int);
    } else {
        suffix_depth(a, b, i - 1);
        assert((a + b)[a.len() + i - 1] == b[i - 1]);
    }
}

/// The depth of a line is the sum of those of its parts, where the first part ends in the code.
pub proof fn depth_adds_up(a: Text, b: Text)
    requires
        mode_at(a, a.len() as int) is Code,
    ensures
        line_depth(a + b) == line_depth(a) + line_depth(b),
{
    suffix_depth(a, b, b.len() as int);
}

proof fn comment_stays(s: Text, i: int, j: int)
    requires
        0 <= i <= j,
        mode_at(s, i) is Comment,
    ensures
        mode_at(s, j) is Comment,
        depth_at(s, j) == depth_at(s, i),
    decreases j - i,
{
    if i < j {
        comment_stays(s, i, j - 1);
    }
}

/// Brackets behind a comment sign of the code do not count.
pub proof fn comment_does_not_count(a: Text, b: Text)
    requires
        mode_at(a, a.len() as int) is Code,
    ensures
        line_depth(a + seq!['#'] + b) == line_depth(a),
{
    let n = a.len() as int;
    let s = a + seq!['#'] + b;
    prefix_depth(a, seq!['#'] + b, n);
    assert(s =~= a + (seq!['#'] + b));
    assert(s[n] == '#');
    comment_stays(s, n + 1, s.len() as int);
}

/// Counts the brackets that a line leaves open. Brackets in string literals and comments do not
/// count.
pub fn bracket_count(input: &str) -> (r: i32)
    requires
        depth_fits(input@),
    ensures
        r == line_depth(input@),
{
    let chars: Vec<char> = chars_of(input);
    let n: usize = chars.len();
    let mut depth: i32 = 0;
    let mut in_string: bool = false;
    let mut escape: bool = false;
    let mut i: usize = 0;
    while i < n
        invariant
            i <= n,
            n == chars@.len(),
            depth_fits(input@),
            chars@ == input@,
            depth == depth_at(input@, i as int),
            mode_at(input@, i as int) == if escape {
                ModeV::Escaped
            } else if in_string {
                ModeV::Literal
            } else {
                ModeV::Code
            },
            escape ==> in_string,
        decreases n - i,
    {
        assert(i32::MIN <= depth_at(input@, i + 1) <= i32::MAX);
        let c: char = chars[i];
        if escape {
            escape = false;
        } else if c == '\\' && in_string {
            escape = true;
        } else if c == '"' {
            in_string = !in_string;
        } else if !in_string {
            if c == '[' {
                depth = depth + 1;
            } else if c == ']' {
                depth = depth - 1;
            } else if c == '#' {
                proof {
                    comment_stays(input@, i + 1, n as int);
                }
                return depth;
            }
        }
        i = i + 1;
    }
    depth
}

proof fn total_depth_bound(lines: Seq<Text>)
    ensures
        -total_length(lines) <= total_depth(lines) <= total_length(lines),
    decreases lines.len(),
{
    if lines.len() > 0 {
        total_depth_bound(lines.drop_last());
        depth_bound(lines.last(), lines.last().len() as int);
    }
}

proof fn prefix_length(lines: Seq<Text>, i: int)
    requires
        0 <= i <= lines.len(),
    ensures
        total_length(lines.take(i)) <= total_length(lines),
        i < lines.len() ==> total_length(lines.take(i)) + lines[i].len() <= total_length(lines),
    decreases lines.len() - i,
{
    if i < lines.len() {
        assert(lines.take(i + 1).drop_last() =~= lines.take(i));
        prefix_length(lines, i + 1);
    } else {
        assert(lines.take(i) =~= lines);
    }
}

/// Whether lines close all the brackets that they open.
pub fn is_balanced(lines: &[&str]) -> (b: bool)
    requires
        depths_fit(lines.deep_view()),
    ensures
        b == (total_depth(lines.deep_view()) <= 0),
{
    let ghost all = lines.deep_view();
    let n: usize = lines.len();
    let mut total: i32 = 0;
    let mut i: usize = 0;
    while i < n
        invariant
            i <= n,
            n == lines@.len(),
            all == lines.deep_view(),
            depths_fit(all),
            total == total_depth(all.take(i as int)),
        decreases n - i,
    {
        assert(all[i as int] == lines@[i as int]@);
        assert(all.take(i + 1).drop_last() =~= all.take(i as int));
        assert(i32::MIN <= total_depth(all.take(i + 1)) <= i32::MAX);
        total = total + bracket_count(lines[i]);
        i = i + 1;
    }
    assert(all.take(i as int) =~= all);
    total <= 0
}

/// Outside of strings and comments an opening bracket counts up, a closing one counts down, and
/// nothing else counts.
pub proof fn brackets_count(a: Text, c: char)
    requires
        mode_at(a, a.len() as int) is Code,
    ensures
        line_depth(a.push('[')) == line_depth(a) + 1,
        line_depth(a.push(']')) == line_depth(a) - 1,
        c != '[' && c != ']' ==> line_depth(a.push(c)) == line_depth(a),
{
    let n = a.len() as int;
    assert(a.push('[') =~= a + seq!['[']);
    assert(a.push(']') =~= a + seq![']']);
    assert(a.push(c) =~= a + seq![c]);
    prefix_depth(a, seq!['['], n);
    prefix_depth(a, seq![']'], n);
    prefix_depth(a, seq![c], n);
}

proof fn string_goes_on(s: Text, i: int, j: int)
    requires
        0 <= i <= j <= s.len(),
        mode_at(s, i) is Literal,
        forall|k: int| i <= k < j ==> #[trigger] s[k] != '"' && s[k] != '\\',
    ensures
        mode_at(s, j) is Literal,
        depth_at(s, j) == depth_at(s, i),
    decreases j - i,
{
    if i < j {
        string_goes_on(s, i, j - 1);
    }
}

/// A string does not count, whatever brackets are in it, and what follows it counts again.
pub proof fn strings_do_not_count(a: Text, content: Text)
    requires
        mode_at(a, a.len() as int) is Code,
        !content.contains('"'),
        !content.contains('\\'),
    ensures
        ({
            let s = a.push('"') + content.push('"');
            line_depth(s) == line_depth(a) && mode_at(s, s.len() as int) is Code
        }),
{
    let n = a.len() as int;
    let s = a.push('"') + content.push('"');
    let m = n + 1 + content.len();
    assert(s =~= a + (seq!['"'] + content.push('"')));
    prefix_depth(a, seq!['"'] + content.push('"'), n);
    assert(s[n] == '"');
    assert forall|k: int| n + 1 <= k < m implies #[trigger] s[k] != '"' && s[k] != '\\' by {
        assert(s[k] == content[k - n - 1]);
    }
    string_goes_on(s, n + 1, m);
    assert(s[m] == '"');
    assert(s.len() == m + 1);
}

/// In a string, a backslash takes the meaning of the character behind it: neither ends the string
/// nor counts.
pub proof fn escapes_do_not_count(a: Text, c: char)
    requires
        mode_at(a, a.len() as int) is Literal,
    ensures
        ({
            let s = a.push('\\').push(c);
            line_depth(s) == line_depth(a) && mode_at(s, s.len() as int) is Literal
        }),
{
    let s = a.push('\\').push(c);
    let tail = seq!['\\', c];
    assert(s =~= a + tail);
    let n = a.len() as int;
    prefix_depth(a, tail, n);
    assert(s[n] == '\\');
    assert(mode_at(s, n + 1) is Escaped && depth_at(s, n + 1) == depth_at(s, n));
    assert(mode_at(s, n + 2) is Literal && depth_at(s, n + 2) == depth_at(s, n + 1));
}

} // verus!
