//! Where comments and blank lines are kept: a comment belongs to the node that it stands behind on
//! a line, and else to what follows it.
use crate::lexer::{TokV, TokenV};
use crate::model::Text;
use crate::parser::{outcome, step};
use crate::state::{StateV, StepV};
use crate::stream::{next_significant, start_key};
use crate::value::{comment_step, line_step};
use vstd::prelude::*;

verus! {

/// Whether a token is the first behind place `i` that is neither a comment nor the end of a line.
pub open spec fn next_told(ts: Seq<TokV>, i: int, k: int) -> bool {
    &&& i < k < ts.len()
    &&& !(ts[k].tok is Comment || ts[k].tok is Newline || ts[k].tok is Semicolon)
    &&& forall|m: int|
        i < m < k ==> (#[trigger] ts[m].tok is Comment || ts[m].tok is Newline
            || ts[m].tok is Semicolon)
}

proof fn told_is_significant(ts: Seq<TokV>, j: int, i: int, k: int)
    requires
        next_told(ts, i, k),
        0 <= i < j <= k,
    ensures
        next_significant(ts, j) == k,
    decreases k - j,
{
    if j < k {
        told_is_significant(ts, j + 1, i, k);
    }
}

/// A comment behind a node on the line on which the node ends is kept as the comment that trails the
/// node, and nothing else is kept of it.
pub proof fn comment_trails_the_node(s: StateV, ts: Seq<TokV>, i: int, text: Text)
    requires
        0 <= i < ts.len(),
        ts[i].tok == TokenV::Comment(text),
        s.node matches Some(n) && n.end_line == ts[i].span.start_line,
    ensures
        step(s, ts, i) matches StepV::Next(t, next) && next == i + 1 && {
            let key = start_key(s.node->0);
            &&& t.comments.trailing.contains_key(key)
            &&& t.comments.trailing[key] == text
            &&& t.comments.trailing.remove(key) =~= s.comments.trailing.remove(key)
            &&& t.comments.leading == s.comments.leading
            &&& t.comments.blank_before == s.comments.blank_before
        },
{
    reveal(step);
    reveal(comment_step);
}

/// A comment on a line on which nothing stands before it is kept as the last of the comments that
/// lead to what follows, and nothing else is kept of it.
pub proof fn comment_leads_what_follows(s: StateV, ts: Seq<TokV>, i: int, k: int, text: Text)
    requires
        0 <= i < ts.len(),
        ts[i].tok == TokenV::Comment(text),
        s.node matches Some(n) ==> n.end_line != ts[i].span.start_line,
        s.last matches Some(l) ==> l.start_line != ts[i].span.start_line,
        next_told(ts, i, k),
    ensures
        step(s, ts, i) matches StepV::Next(t, next) && next == i + 1 && {
            let key = start_key(ts[k].span);
            &&& t.comments.leading.contains_key(key)
            &&& t.comments.leading[key] == if s.comments.leading.contains_key(key) {
                s.comments.leading[key].push(text)
            } else {
                seq![text]
            }
            &&& t.comments.leading.remove(key) =~= s.comments.leading.remove(key)
            &&& t.comments.trailing == s.comments.trailing
            &&& t.comments.blank_before == s.comments.blank_before
        },
{
    reveal(step);
    reveal(comment_step);
    told_is_significant(ts, i + 1, i, k);
    let key = start_key(ts[k].span);
    if s.comments.leading.contains_key(key) {
        assert(s.comments.leading[key] + seq![text] =~= s.comments.leading[key].push(text));
    }
}

/// The end of a line marks what follows as standing behind a blank line just where the line is
/// blank: another end of a line stands right before it.
pub proof fn blank_line_is_kept(s: StateV, ts: Seq<TokV>, i: int, k: int)
    requires
        0 < i < ts.len(),
        ts[i].tok is Newline,
        next_told(ts, i, k),
    ensures
        step(s, ts, i) matches StepV::Next(t, next) && next == i + 1 && {
            let key = start_key(ts[k].span);
            &&& t.comments.leading == s.comments.leading
            &&& t.comments.trailing == s.comments.trailing
            &&& ts[i - 1].tok is Newline ==> t.comments.blank_before.contains_key(key)
                && t.comments.blank_before[key]
            &&& t.comments.blank_before.remove(key) =~= s.comments.blank_before.remove(key)
            &&& !(ts[i - 1].tok is Newline || ts[i - 1].tok is Semicolon) ==> t.comments
                == s.comments
        },
{
    reveal(step);
    reveal(line_step);
    told_is_significant(ts, i + 1, i, k);
}

/// What was kept when the source ends is what the parse hands out.
pub proof fn comments_are_handed_out(s: StateV, ts: Seq<TokV>)
    requires
        s.stack.len() == 0,
    ensures
        outcome(s, ts, ts.len() as int) matches Ok(o) && o.comments == s.comments && o.diagnostics
            == s.diagnostics,
{
}

} // verus!
