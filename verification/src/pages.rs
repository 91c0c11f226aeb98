//! Sources of several lines and documents: what stands on the lines of a document are its items,
//! ends of lines and comments are not, and what stands on the line of a separator is the header of
//! the document behind it.
use crate::declarations::{
    declaration_is_fine, declaration_is_read, declared_depth, declared_lexis, declared_reads,
    declared_sane, DeclaredV,
};
use crate::diagnostic::DiagV;
use crate::direct::plain_value;
use crate::header::{entry_put, key_index_finds};
use crate::lexer::{tokens_of, TokV, TokenV};
use crate::model::{DocumentV, ExprV, ItemV, NodeV, Text};
use crate::node::string_node;
use crate::open::MAX_PARSE_DEPTH;
use crate::parser::{first_expression, outcome, parsed, step, OutputV};
use crate::reading::{
    at_colon, fits, goes_to, landed, numeral_is_token, same_tree, step_goes, term_is_read, written,
    written_parts,
};
use crate::scan::KindV;
use crate::section::{
    document_ended, document_span, header_from, header_step, separator_step, value_from,
    HeaderStepV,
};
use crate::sources::{
    all_legible, fine_is_legible, kinds_of, legible_sum, term_is_fine, tokens_are_made,
    tokens_placed, well_spaced,
};
use crate::spelling::{spelled, MarkV};
use crate::state::{start_state, StateV, StepV};
use crate::stream::{is_immediate_at, next_horizontal};
use crate::terms::{depth, lexis, plain_name, over, quoted, reads, sane, TermV};
use crate::value::{comment_step, commented, followed, line_ended, line_step};
use vstd::prelude::*;

verus! {

/// What stands on the lines of a document.
pub enum LineV {
    Term(TermV),
    Decl(DeclaredV),
    /// The end of a line.
    Break,
    /// `;`
    Semicolon,
    Comment(Text),
}

pub open spec fn line_lexis(l: LineV) -> Seq<KindV> {
    match l {
        LineV::Term(w) => lexis(w),
        LineV::Decl(d) => declared_lexis(d),
        LineV::Break => seq![KindV::Newline],
        LineV::Semicolon => seq![KindV::Semicolon],
        LineV::Comment(c) => seq![KindV::Comment(c)],
    }
}

/// The lexemes of the first `n` parts of lines.
pub open spec fn lines_lexis(ls: Seq<LineV>, n: int) -> Seq<KindV>
    decreases n,
{
    if n <= 0 || n > ls.len() {
        Seq::empty()
    } else {
        lines_lexis(ls, n - 1) + line_lexis(ls[n - 1])
    }
}

/// Whether lines can be written: a comment ends its line.
pub open spec fn lines_sane(ls: Seq<LineV>) -> bool {
    forall|k: int|
        0 <= k < ls.len() ==> match #[trigger] ls[k] {
            LineV::Term(w) => sane(w) && depth(w) <= MAX_PARSE_DEPTH,
            LineV::Decl(d) => declared_sane(d) && declared_depth(d) <= MAX_PARSE_DEPTH,
            LineV::Comment(c) => !c.contains('\n') && (k + 1 < ls.len() ==> ls[k + 1] is Break),
            _ => true,
        }
}

/// How many terms and declarations are among the first `n` parts of lines.
pub open spec fn terms_on(ls: Seq<LineV>, n: int) -> int
    decreases n,
{
    if n <= 0 || n > ls.len() {
        0
    } else if ls[n - 1] is Term || ls[n - 1] is Decl {
        terms_on(ls, n - 1) + 1
    } else {
        terms_on(ls, n - 1)
    }
}

/// Whether items are what the terms and declarations on lines are read as, in their order.
pub open spec fn lines_read(items: Seq<ItemV>, ls: Seq<LineV>, n: int, ts: Seq<TokV>, a: int) -> bool
    decreases n,
{
    n <= 0 || n > ls.len() || {
        &&& lines_read(items, ls, n - 1, ts, a)
        &&& ls[n - 1] matches LineV::Term(w) ==> {
            let item = items[terms_on(ls, n - 1)];
            item is Expr && reads(item->Expr_0, w, ts, a + lines_lexis(ls, n - 1).len())
        }
        &&& ls[n - 1] matches LineV::Decl(d) ==> {
            let from = a + lines_lexis(ls, n - 1).len();
            let to = a + lines_lexis(ls, n).len();
            let item = items[terms_on(ls, n - 1)];
            &&& item is Decl
            &&& declared_reads(item->Decl_0, d, ts, from)
            &&& over(item->Decl_1, ts, from, to)
        }
    }
}

proof fn line_of(ls: Seq<LineV>, n: int, k: int, ts: Seq<TokV>, a: int)
    requires
        0 <= k < n <= ls.len(),
        written(ts, a, lines_lexis(ls, n)),
    ensures
        written(ts, a + lines_lexis(ls, k).len(), line_lexis(ls[k])),
        lines_lexis(ls, k).len() + line_lexis(ls[k]).len() == lines_lexis(ls, k + 1).len(),
        lines_lexis(ls, k + 1).len() <= lines_lexis(ls, n).len(),
    decreases n,
{
    written_parts(ts, a, lines_lexis(ls, n - 1), line_lexis(ls[n - 1]));
    if k < n - 1 {
        line_of(ls, n - 1, k, ts, a);
    }
}

/// Whether lines end at a token: there is none, it separates documents, or it is a bracket.
pub open spec fn lines_end(ts: Seq<TokV>, e: int) -> bool {
    0 <= e < ts.len() ==> (ts[e].tok is DocSeparator || ts[e].tok is OpenBracket
        || ts[e].tok is CloseBracket)
}

proof fn behind_line(ls: Seq<LineV>, n: int, ts: Seq<TokV>, a: int)
    requires
        0 <= n <= ls.len(),
        lines_sane(ls),
        written(ts, a, lines_lexis(ls, ls.len() as int)),
        lines_end(ts, a + lines_lexis(ls, ls.len() as int).len()),
    ensures
        !at_colon(ts, a + lines_lexis(ls, n).len()),
        !is_immediate_at(ts, a + lines_lexis(ls, n).len()),
{
    if n < ls.len() {
        line_of(ls, ls.len() as int, n, ts, a);
        let at = a + lines_lexis(ls, n).len();
        match ls[n] {
            LineV::Term(w) => {
                crate::reading::first_is_calm(w, ts, at);
            },
            LineV::Decl(d) => {
                assert(fits(ts, at + 0, line_lexis(ls[n])[0]));
            },
            LineV::Comment(c) => {
                assert(fits(ts, at + 0, line_lexis(ls[n])[0]));
                if n + 1 < ls.len() {
                    line_of(ls, ls.len() as int, n + 1, ts, a);
                    assert(fits(ts, at + 1 + 0, line_lexis(ls[n + 1])[0]));
                }
                assert(next_horizontal(ts, at) == next_horizontal(ts, at + 1));
                assert(next_horizontal(ts, at + 1) == at + 1);
            },
            _ => {
                assert(fits(ts, at + 0, line_lexis(ls[n])[0]));
            },
        }
    }
}

proof fn longer_items_read(
    xs: Seq<ItemV>,
    ys: Seq<ItemV>,
    ls: Seq<LineV>,
    n: int,
    ts: Seq<TokV>,
    a: int,
)
    requires
        0 <= n <= ls.len(),
        terms_on(ls, n) <= xs.len(),
        xs.len() <= ys.len(),
        forall|k: int| 0 <= k < xs.len() ==> #[trigger] ys[k] == xs[k],
        lines_read(xs, ls, n, ts, a),
    ensures
        lines_read(ys, ls, n, ts, a),
        0 <= terms_on(ls, n) <= n,
    decreases n,
{
    if n > 0 {
        terms_on_grows(ls, n - 1);
        longer_items_read(xs, ys, ls, n - 1, ts, a);
    }
}

proof fn terms_on_grows(ls: Seq<LineV>, n: int)
    requires
        0 <= n <= ls.len(),
    ensures
        0 <= terms_on(ls, n) <= n,
    decreases n,
{
    if n > 0 {
        terms_on_grows(ls, n - 1);
    }
}

/// The lines of a document are read: its items are the terms on them.
pub(crate) proof fn lines_are_read(ls: Seq<LineV>, n: int, s: StateV, ts: Seq<TokV>, a: int) -> (t: StateV)
    requires
        0 <= n <= ls.len(),
        lines_sane(ls),
        written(ts, a, lines_lexis(ls, ls.len() as int)),
        lines_end(ts, a + lines_lexis(ls, ls.len() as int).len()),
        s.stack.len() == 0,
        s.items.len() == 0,
    ensures
        goes_to(s, ts, a, t, a + lines_lexis(ls, n).len()),
        same_tree(t, s.stack, t.items, s),
        t.items.len() == terms_on(ls, n),
        lines_read(t.items, ls, n, ts, a),
    decreases n,
{
    terms_on_grows(ls, n);
    if n == 0 {
        s
    } else {
        terms_on_grows(ls, n - 1);
        let b = lines_are_read(ls, n - 1, s, ts, a);
        let at = a + lines_lexis(ls, n - 1).len();
        line_of(ls, ls.len() as int, n - 1, ts, a);
        behind_line(ls, n, ts, a);
        match ls[n - 1] {
            LineV::Term(w) => {
                let (t, m) = term_is_read(w, b, ts, at);
                landed(b, ts, at, m, t, at + lexis(w).len());
                assert(t.items == b.items.push(ItemV::Expr(m)));
                longer_items_read(b.items, t.items, ls, n - 1, ts, a);
                t
            },
            LineV::Decl(d) => {
                let (t, decl) = declaration_is_read(d, b, ts, at);
                longer_items_read(b.items, t.items, ls, n - 1, ts, a);
                t
            },
            _ => {
                let t = layout_is_passed(ls[n - 1], b, ts, at);
                t
            },
        }
    }
}

/// Ends of lines and comments change nothing of the tree.
proof fn layout_is_passed(l: LineV, s: StateV, ts: Seq<TokV>, i: int) -> (t: StateV)
    requires
        !(l is Term || l is Decl),
        written(ts, i, line_lexis(l)),
    ensures
        goes_to(s, ts, i, t, i + 1),
        same_tree(t, s.stack, s.items, s),
{
    reveal(step);
    reveal(comment_step);
    reveal(line_step);
    assert(fits(ts, i + 0, line_lexis(l)[0]));
    let comments = match l {
        LineV::Comment(c) => {
            assert(ts[i].tok == TokenV::Comment(c));
            commented(
                s.comments,
                followed(s.last, s.node, ts[i].span.start_line),
                c,
                ts,
                i,
            )
        },
        _ => {
            assert(ts[i].tok is Newline || ts[i].tok is Semicolon);
            line_ended(s.comments, ts, i)
        },
    };
    let t = StateV { comments, ..s };
    assert(step(s, ts, i) == StepV::Next(t, i + 1));
    step_goes(s, ts, i, t, i + 1);
    t
}

// Headers.

/// What stands on the line of a separator.
pub enum HeadV {
    /// `%name`
    Section(Text),
    /// `key: value`
    Field(Text, TermV),
}

pub open spec fn head_lexis(h: HeadV) -> Seq<KindV> {
    match h {
        HeadV::Section(name) => seq![KindV::Word(seq!['%'] + name)],
        HeadV::Field(key, w) => seq![KindV::Word(key), KindV::Colon] + lexis(w),
    }
}

pub open spec fn heads_lexis(hs: Seq<HeadV>, n: int) -> Seq<KindV>
    decreases n,
{
    if n <= 0 || n > hs.len() {
        Seq::empty()
    } else {
        heads_lexis(hs, n - 1) + head_lexis(hs[n - 1])
    }
}

/// The key under which a header holds what is written.
pub open spec fn head_key(h: HeadV) -> Text {
    match h {
        HeadV::Section(_) => "name"@,
        HeadV::Field(key, _) => key,
    }
}

/// Whether a term can be the value of a field of a header.
pub open spec fn head_value(w: TermV) -> bool {
    match w {
        TermV::Int(_) | TermV::Float(_) | TermV::Str { .. } | TermV::Name(_) => sane(w),
        _ => false,
    }
}

pub open spec fn head_sane(h: HeadV) -> bool {
    match h {
        HeadV::Section(name) => plain_name(seq!['%'] + name) && name.len() > 0 && name[0] != '%',
        HeadV::Field(key, w) => plain_name(key) && head_value(w),
    }
}

/// Whether a header can be written: no key occurs twice.
pub open spec fn heads_sane(hs: Seq<HeadV>) -> bool {
    &&& forall|k: int| 0 <= k < hs.len() ==> head_sane(#[trigger] hs[k])
    &&& forall|j: int, k: int|
        0 <= j < k < hs.len() ==> head_key(#[trigger] hs[j]) != head_key(#[trigger] hs[k])
}

/// Whether an entry of a header is what is written.
pub open spec fn head_reads(e: (Text, NodeV), h: HeadV, ts: Seq<TokV>, a: int) -> bool {
    &&& e.0 == head_key(h)
    &&& match h {
        HeadV::Section(name) => e.1.expr == quoted(name) && e.1.span == ts[a].span,
        HeadV::Field(_, w) => reads(e.1, w, ts, a + 2),
    }
}

pub open spec fn heads_read(es: Seq<(Text, NodeV)>, hs: Seq<HeadV>, n: int, ts: Seq<TokV>, a: int) -> bool {
    forall|k: int|
        0 <= k < n ==> head_reads(#[trigger] es[k], hs[k], ts, a + heads_lexis(hs, k).len())
}

/// The names of sections in a header.
pub open spec fn section_names(hs: Seq<HeadV>, n: int) -> Set<Text>
    decreases n,
{
    if n <= 0 || n > hs.len() {
        Set::empty()
    } else {
        match hs[n - 1] {
            HeadV::Section(name) => section_names(hs, n - 1).insert(name),
            HeadV::Field(_, _) => section_names(hs, n - 1),
        }
    }
}

proof fn head_of(hs: Seq<HeadV>, n: int, k: int, ts: Seq<TokV>, a: int)
    requires
        0 <= k < n <= hs.len(),
        written(ts, a, heads_lexis(hs, n)),
    ensures
        written(ts, a + heads_lexis(hs, k).len(), head_lexis(hs[k])),
        heads_lexis(hs, k).len() + head_lexis(hs[k]).len() == heads_lexis(hs, k + 1).len(),
        heads_lexis(hs, k + 1).len() <= heads_lexis(hs, n).len(),
    decreases n,
{
    written_parts(ts, a, heads_lexis(hs, n - 1), head_lexis(hs[n - 1]));
    if k < n - 1 {
        head_of(hs, n - 1, k, ts, a);
    }
}

proof fn entry_is_new(es: Seq<(Text, NodeV)>, key: Text, node: NodeV)
    requires
        forall|i: int| 0 <= i < es.len() ==> (#[trigger] es[i]).0 != key,
    ensures
        entry_put(es, key, node) == es.push((key, node)),
{
    key_index_finds(es, key);
}

/// A header so far.
spec fn heading(s: StateV, base: StateV, hs: Seq<HeadV>, n: int, ts: Seq<TokV>, a: int) -> bool {
    &&& s.stack == base.stack
    &&& s.items == base.items
    &&& s.documents == base.documents
    &&& s.diagnostics == base.diagnostics
    &&& s.sections == base.sections.union(section_names(hs, n))
    &&& s.header.len() == n
    &&& heads_read(s.header, hs, n, ts, a)
}

proof fn header_goes(s: StateV, ts: Seq<TokV>, i: int, t: StateV, j: int)
    requires
        0 <= i < ts.len(),
        header_step(s, ts, i) == HeaderStepV::More(t, j),
        i < j,
    ensures
        header_from(s, ts, i) == header_from(t, ts, j),
{
}

proof fn section_is_read(name: Text, s: StateV, ts: Seq<TokV>, i: int) -> (t: StateV)
    requires
        head_sane(HeadV::Section(name)),
        written(ts, i, head_lexis(HeadV::Section(name))),
        i + 1 < ts.len(),
        !(ts[i + 1].tok is Colon),
        !(ts[i + 1].tok is ImmediateAt),
        !s.sections.contains(name),
        forall|k: int| 0 <= k < s.header.len() ==> (#[trigger] s.header[k]).0 != "name"@,
    ensures
        header_from(s, ts, i) == header_from(t, ts, i + 1),
        t == (StateV {
            sections: s.sections.insert(name),
            header: s.header.push(("name"@, string_node(name, ts[i].span))),
            ..s
        }),
{
    let word = seq!['%'] + name;
    assert(fits(ts, i + 0, head_lexis(HeadV::Section(name))[0]));
    assert(ts[i].tok == TokenV::Identifier(word));
    assert(word[0] == '%');
    assert(word.skip(1) =~= name);
    reveal_with_fuel(crate::section::without_percents, 3);
    assert(crate::section::without_percents(word) == name);
    entry_is_new(s.header, "name"@, string_node(name, ts[i].span));
    let t = StateV {
        sections: s.sections.insert(name),
        header: s.header.push(("name"@, string_node(name, ts[i].span))),
        ..s
    };
    assert(header_step(s, ts, i) == HeaderStepV::More(t, i + 1));
    header_goes(s, ts, i, t, i + 1);
    t
}

proof fn head_field_is_read(key: Text, w: TermV, s: StateV, ts: Seq<TokV>, i: int) -> (r: (
    StateV,
    NodeV,
))
    requires
        head_sane(HeadV::Field(key, w)),
        written(ts, i, head_lexis(HeadV::Field(key, w))),
        forall|k: int| 0 <= k < s.header.len() ==> (#[trigger] s.header[k]).0 != key,
    ensures
        head_lexis(HeadV::Field(key, w)).len() == 3,
        header_from(s, ts, i) == header_from(r.0, ts, i + 3),
        reads(r.1, w, ts, i + 2),
        r.0 == (StateV { header: s.header.push((key, r.1)), ..s }),
{
    let head = seq![KindV::Word(key), KindV::Colon];
    written_parts(ts, i, head, lexis(w));
    assert(fits(ts, i + 0, head[0]));
    assert(fits(ts, i + 1, head[1]));
    assert(lexis(w).len() == 1);
    assert(fits(ts, i + 2 + 0, lexis(w)[0]));
    match w {
        TermV::Int(k) => {
            numeral_is_token(k as int);
        },
        _ => {},
    }
    let node = plain_value(ts[i + 2])->0;
    assert(plain_value(ts[i + 2]) is Some);
    assert(reads(node, w, ts, i + 2));
    entry_is_new(s.header, key, node);
    let v = value_from(ts, key, i + 2, i + 2, Seq::empty(), s.comments);
    assert(v matches Ok(x) && x.node == node && x.next == i + 3 && x.comments == s.comments);
    let t = StateV { header: s.header.push((key, node)), ..s };
    assert(header_step(s, ts, i) == HeaderStepV::More(t, i + 3));
    header_goes(s, ts, i, t, i + 3);
    (t, node)
}

/// The name that a header gives, if it gives one here.
pub open spec fn names_of_head(h: HeadV) -> Set<Text> {
    match h {
        HeadV::Section(name) => Set::empty().insert(name),
        HeadV::Field(_, _) => Set::empty(),
    }
}

proof fn head_is_read(h: HeadV, s: StateV, ts: Seq<TokV>, at: int) -> (r: (StateV, (Text, NodeV)))
    requires
        head_sane(h),
        written(ts, at, head_lexis(h)),
        at + head_lexis(h).len() < ts.len(),
        !(ts[at + head_lexis(h).len()].tok is Colon),
        !(ts[at + head_lexis(h).len()].tok is ImmediateAt),
        names_of_head(h).disjoint(s.sections),
        forall|k: int| 0 <= k < s.header.len() ==> (#[trigger] s.header[k]).0 != head_key(h),
    ensures
        header_from(s, ts, at) == header_from(r.0, ts, at + head_lexis(h).len()),
        r.0.stack == s.stack,
        r.0.items == s.items,
        r.0.documents == s.documents,
        r.0.diagnostics == s.diagnostics,
        r.0.sections =~= s.sections.union(names_of_head(h)),
        r.0.header == s.header.push(r.1),
        head_reads(r.1, h, ts, at),
{
    quotes_are_plain();
    match h {
        HeadV::Section(name) => {
            assert(names_of_head(h).contains(name));
            let t = section_is_read(name, s, ts, at);
            (t, ("name"@, string_node(name, ts[at].span)))
        },
        HeadV::Field(key, w) => {
            let (t, node) = head_field_is_read(key, w, s, ts, at);
            (t, (key, node))
        },
    }
}

proof fn behind_head(hs: Seq<HeadV>, n: int, ts: Seq<TokV>, a: int)
    requires
        0 <= n <= hs.len(),
        heads_sane(hs),
        written(ts, a, heads_lexis(hs, hs.len() as int)),
        ({
            let e = a + heads_lexis(hs, hs.len() as int).len();
            e < ts.len() && ts[e].tok is Newline
        }),
    ensures
        ({
            let e = a + heads_lexis(hs, n).len();
            e < ts.len() && !(ts[e].tok is Colon) && !(ts[e].tok is ImmediateAt)
        }),
{
    if n < hs.len() {
        head_of(hs, hs.len() as int, n, ts, a);
        let at = a + heads_lexis(hs, n).len();
        assert(head_sane(hs[n]));
        assert(head_lexis(hs[n]).len() > 0);
        assert(fits(ts, at + 0, head_lexis(hs[n])[0]));
        assert(head_lexis(hs[n])[0] is Word);
    }
}

proof fn heads_are_read(
    hs: Seq<HeadV>,
    n: int,
    s: StateV,
    ts: Seq<TokV>,
    a: int,
) -> (t: StateV)
    requires
        0 <= n <= hs.len(),
        heads_sane(hs),
        written(ts, a, heads_lexis(hs, hs.len() as int)),
        ({
            let e = a + heads_lexis(hs, hs.len() as int).len();
            e < ts.len() && ts[e].tok is Newline
        }),
        s.header.len() == 0,
        section_names(hs, hs.len() as int).disjoint(s.sections),
    ensures
        header_from(s, ts, a) == header_from(t, ts, a + heads_lexis(hs, n).len()),
        heading(t, s, hs, n, ts, a),
    decreases n,
{
    if n == 0 {
        assert(s.sections.union(section_names(hs, 0)) =~= s.sections);
        s
    } else {
        let b = heads_are_read(hs, n - 1, s, ts, a);
        let len = hs.len() as int;
        let h = hs[n - 1];
        let at = a + heads_lexis(hs, n - 1).len();
        head_of(hs, len, n - 1, ts, a);
        behind_head(hs, n, ts, a);
        assert(head_sane(h));
        assert forall|k: int| 0 <= k < b.header.len() implies (#[trigger] b.header[k]).0
            != head_key(h) by {
            assert(head_reads(b.header[k], hs[k], ts, a + heads_lexis(hs, k).len()));
            assert(head_key(hs[k]) != head_key(hs[n - 1]));
        }
        name_is_new(hs, n, s.sections);
        let (t, e) = head_is_read(h, b, ts, at);
        assert(t.sections =~= s.sections.union(section_names(hs, n)));
        assert forall|k: int| 0 <= k < n implies head_reads(
            #[trigger] t.header[k],
            hs[k],
            ts,
            a + heads_lexis(hs, k).len(),
        ) by {
            if k < n - 1 {
                assert(t.header[k] == b.header[k]);
            }
        }
        t
    }
}

proof fn name_is_new(hs: Seq<HeadV>, n: int, known: Set<Text>)
    requires
        0 < n <= hs.len(),
        heads_sane(hs),
        section_names(hs, hs.len() as int).disjoint(known),
    ensures
        names_of_head(hs[n - 1]).disjoint(known.union(section_names(hs, n - 1))),
        section_names(hs, n) =~= section_names(hs, n - 1).union(names_of_head(hs[n - 1])),
{
    match hs[n - 1] {
        HeadV::Section(name) => {
            names_grow(hs, n, hs.len() as int);
            assert(section_names(hs, n).contains(name));
            no_names_before(hs, n - 1, n - 1);
        },
        _ => {},
    }
}

proof fn quotes_are_plain()
    ensures
        "\""@ == seq!['"'],
{
    reveal_strlit("\"");
    assert("\""@ =~= seq!['"']);
}

proof fn names_grow(hs: Seq<HeadV>, n: int, m: int)
    requires
        0 <= n <= m <= hs.len(),
    ensures
        section_names(hs, n).subset_of(section_names(hs, m)),
    decreases m - n,
{
    if n < m {
        names_grow(hs, n, m - 1);
    }
}

/// A header has one name at most.
proof fn no_names_before(hs: Seq<HeadV>, n: int, k: int)
    requires
        0 <= k <= n < hs.len(),
        heads_sane(hs),
        hs[n] is Section,
    ensures
        section_names(hs, k) =~= Set::<Text>::empty(),
    decreases k,
{
    if k > 0 {
        no_names_before(hs, n, k - 1);
        assert(head_key(hs[k - 1]) != head_key(hs[n]));
    }
}

// Documents.

/// A document: what stands on the line of the separator before it, and its lines.
pub struct PageV {
    pub head: Seq<HeadV>,
    pub lines: Seq<LineV>,
}

/// The lexemes of a document with its separator.
pub open spec fn page_lexis(p: PageV) -> Seq<KindV> {
    seq![KindV::DocSeparator] + heads_lexis(p.head, p.head.len() as int) + seq![KindV::Newline]
        + lines_lexis(p.lines, p.lines.len() as int)
}

/// The lexemes of a source: the lines of the first document, and the first `n` documents behind it.
pub open spec fn book_lexis(first: Seq<LineV>, ps: Seq<PageV>, n: int) -> Seq<KindV>
    decreases n,
{
    if n <= 0 || n > ps.len() {
        lines_lexis(first, first.len() as int)
    } else {
        book_lexis(first, ps, n - 1) + page_lexis(ps[n - 1])
    }
}

/// The names of the sections of the first `n` documents.
pub open spec fn book_names(ps: Seq<PageV>, n: int) -> Set<Text>
    decreases n,
{
    if n <= 0 || n > ps.len() {
        Set::empty()
    } else {
        book_names(ps, n - 1).union(section_names(ps[n - 1].head, ps[n - 1].head.len() as int))
    }
}

/// Whether documents can be written: no name is given to two of them, and the last is not empty.
pub open spec fn book_sane(first: Seq<LineV>, ps: Seq<PageV>) -> bool {
    &&& lines_sane(first)
    &&& forall|k: int|
        0 <= k < ps.len() ==> lines_sane((#[trigger] ps[k]).lines) && heads_sane(ps[k].head)
            && section_names(ps[k].head, ps[k].head.len() as int).disjoint(book_names(ps, k))
    &&& ps.len() > 0 ==> terms_on(ps.last().lines, ps.last().lines.len() as int) > 0
}

/// Whether a document is what lines are read as, with the header that stands before them.
pub open spec fn page_reads(d: DocumentV, p: PageV, ts: Seq<TokV>, a: int) -> bool {
    let n = p.head.len() as int;
    let m = p.lines.len() as int;
    &&& d.header.len() == n
    &&& heads_read(d.header, p.head, n, ts, a + 1)
    &&& d.items.len() == terms_on(p.lines, m)
    &&& lines_read(d.items, p.lines, m, ts, a + 2 + heads_lexis(p.head, n).len())
}

/// Whether documents are what is written.
pub open spec fn book_reads(ds: Seq<DocumentV>, first: Seq<LineV>, ps: Seq<PageV>, ts: Seq<TokV>) -> bool {
    &&& ds.len() == ps.len() + 1
    &&& ds[0].header.len() == 0
    &&& ds[0].items.len() == terms_on(first, first.len() as int)
    &&& lines_read(ds[0].items, first, first.len() as int, ts, 0)
    &&& forall|k: int|
        0 <= k < ps.len() ==> page_reads(
            #[trigger] ds[k + 1],
            ps[k],
            ts,
            book_lexis(first, ps, k).len() as int,
        )
}

/// The documents so far: those that have ended, and the one whose lines were read last.
spec fn bookish(
    s: StateV,
    first: Seq<LineV>,
    ps: Seq<PageV>,
    n: int,
    ts: Seq<TokV>,
) -> bool {
    let d = DocumentV { header: s.header, items: s.items, span: ts[0].span };
    let ds = s.documents.push(d);
    &&& s.stack.len() == 0
    &&& s.diagnostics.len() == 0
    &&& s.sections == book_names(ps, n)
    &&& book_reads(ds, first, ps.take(n), ts)
}

proof fn page_of(first: Seq<LineV>, ps: Seq<PageV>, n: int, k: int, ts: Seq<TokV>)
    requires
        0 <= k < n <= ps.len(),
        written(ts, 0, book_lexis(first, ps, n)),
    ensures
        written(ts, 0, book_lexis(first, ps, k)),
        written(ts, book_lexis(first, ps, k).len() as int, page_lexis(ps[k])),
        book_lexis(first, ps, k).len() + page_lexis(ps[k]).len() == book_lexis(
            first,
            ps,
            k + 1,
        ).len(),
        book_lexis(first, ps, k + 1).len() <= book_lexis(first, ps, n).len(),
    decreases n,
{
    written_parts(ts, 0, book_lexis(first, ps, n - 1), page_lexis(ps[n - 1]));
    if k < n - 1 {
        page_of(first, ps, n - 1, k, ts);
    }
}

/// Behind the first `n` documents stands a separator, or nothing.
proof fn book_ends(first: Seq<LineV>, ps: Seq<PageV>, n: int, ts: Seq<TokV>)
    requires
        0 <= n <= ps.len(),
        written(ts, 0, book_lexis(first, ps, ps.len() as int)),
        ts.len() == book_lexis(first, ps, ps.len() as int).len(),
    ensures
        lines_end(ts, book_lexis(first, ps, n).len() as int),
        written(ts, 0, book_lexis(first, ps, n)),
{
    if n < ps.len() {
        page_of(first, ps, ps.len() as int, n, ts);
        let at = book_lexis(first, ps, n).len() as int;
        let ks = page_lexis(ps[n]);
        assert(ks[0] is DocSeparator);
        assert(fits(ts, at + 0, ks[0]));
    }
}

/// A separator ends the document before it, and what stands on its line is the header of the next.
proof fn separator_is_read(p: PageV, s: StateV, ts: Seq<TokV>, i: int) -> (t: StateV)
    requires
        heads_sane(p.head),
        written(ts, i, page_lexis(p)),
        s.stack.len() == 0,
        section_names(p.head, p.head.len() as int).disjoint(s.sections),
    ensures
        goes_to(s, ts, i, t, i + 2 + heads_lexis(p.head, p.head.len() as int).len()),
        t.stack == s.stack,
        t.items.len() == 0,
        t.diagnostics == s.diagnostics,
        t.sections == s.sections.union(section_names(p.head, p.head.len() as int)),
        t.documents.len() == s.documents.len() + 1,
        t.documents.drop_last() == s.documents,
        t.documents.last().header == s.header,
        t.documents.last().items == s.items,
        t.header.len() == p.head.len(),
        heads_read(t.header, p.head, p.head.len() as int, ts, i + 1),
        written(
            ts,
            i + 2 + heads_lexis(p.head, p.head.len() as int).len(),
            lines_lexis(p.lines, p.lines.len() as int),
        ),
{
    reveal(step);
    reveal(separator_step);
    let n = p.head.len() as int;
    let hl = heads_lexis(p.head, n);
    let sep = seq![KindV::DocSeparator];
    let end = seq![KindV::Newline];
    let ll = lines_lexis(p.lines, p.lines.len() as int);
    written_parts(ts, i, sep + hl + end, ll);
    written_parts(ts, i, sep + hl, end);
    written_parts(ts, i, sep, hl);
    assert(fits(ts, i + 0, sep[0]));
    let e = i + 1 + hl.len();
    assert(fits(ts, e + 0, end[0]));
    let b = document_ended(s, document_span(s.items, ts[i].span));
    let t = heads_are_read(p.head, n, b, ts, i + 1);
    assert(header_from(t, ts, e) == StepV::Next(t, e + 1));
    assert(step(s, ts, i) == StepV::Next(t, e + 1));
    step_goes(s, ts, i, t, e + 1);
    assert(t.documents.drop_last() =~= s.documents);
    t
}

proof fn book_is_read(first: Seq<LineV>, ps: Seq<PageV>, n: int, ts: Seq<TokV>) -> (t: StateV)
    requires
        0 <= n <= ps.len(),
        book_sane(first, ps),
        written(ts, 0, book_lexis(first, ps, ps.len() as int)),
        ts.len() == book_lexis(first, ps, ps.len() as int).len(),
    ensures
        goes_to(start_state(), ts, 0, t, book_lexis(first, ps, n).len() as int),
        bookish(t, first, ps, n, ts),
    decreases n,
{
    book_ends(first, ps, n, ts);
    if n == 0 {
        let t = lines_are_read(first, first.len() as int, start_state(), ts, 0);
        assert(ps.take(0) =~= Seq::empty());
        t
    } else {
        let b = book_is_read(first, ps, n - 1, ts);
        let p = ps[n - 1];
        let at = book_lexis(first, ps, n - 1).len() as int;
        page_of(first, ps, ps.len() as int, n - 1, ts);
        assert(lines_sane(p.lines) && heads_sane(p.head));
        let c = separator_is_read(p, b, ts, at);
        let from = at + 2 + heads_lexis(p.head, p.head.len() as int).len();
        let m = p.lines.len() as int;
        let t = lines_are_read(p.lines, m, c, ts, from);
        assert(from + lines_lexis(p.lines, m).len() == book_lexis(first, ps, n).len());
        let d0 = DocumentV { header: b.header, items: b.items, span: ts[0].span };
        let ds = b.documents.push(d0);
        let d1 = DocumentV { header: t.header, items: t.items, span: ts[0].span };
        let es = t.documents.push(d1);
        assert(es.len() == ds.len() + 1);
        assert forall|k: int| 0 <= k < ds.len() implies (#[trigger] es[k]).header == ds[k].header
            && es[k].items == ds[k].items by {
            if k < b.documents.len() {
                assert(t.documents.drop_last()[k] == b.documents[k]);
            }
        }
        assert(es[0].header == ds[0].header);
        assert forall|k: int| 0 <= k < ps.take(n).len() implies page_reads(
            #[trigger] es[k + 1],
            ps.take(n)[k],
            ts,
            book_lexis(first, ps.take(n), k).len() as int,
        ) by {
            same_book(first, ps, ps.take(n), k);
            if k < n - 1 {
                same_book(first, ps, ps.take(n - 1), k);
                assert(page_reads(
                    ds[k + 1],
                    ps.take(n - 1)[k],
                    ts,
                    book_lexis(first, ps.take(n - 1), k).len() as int,
                ));
                assert(es[k + 1].header == ds[k + 1].header);
            }
        }
        t
    }
}

proof fn same_book(first: Seq<LineV>, ps: Seq<PageV>, qs: Seq<PageV>, n: int)
    requires
        0 <= n <= qs.len(),
        qs.len() <= ps.len(),
        forall|k: int| 0 <= k < qs.len() ==> #[trigger] qs[k] == ps[k],
    ensures
        book_lexis(first, ps, n) == book_lexis(first, qs, n),
    decreases n,
{
    if n > 0 {
        same_book(first, ps, qs, n - 1);
        assert(qs[n - 1] == ps[n - 1]);
    }
}

pub(crate) proof fn lines_are_fine(ls: Seq<LineV>, n: int)
    requires
        0 <= n <= ls.len(),
        lines_sane(ls),
    ensures
        all_legible(lines_lexis(ls, n)),
    decreases n,
{
    if n > 0 {
        lines_are_fine(ls, n - 1);
        match ls[n - 1] {
            LineV::Term(w) => {
                term_is_fine(w);
                fine_is_legible(lexis(w));
            },
            LineV::Decl(d) => {
                declaration_is_fine(d);
                fine_is_legible(declared_lexis(d));
            },
            _ => {},
        }
        legible_sum(lines_lexis(ls, n - 1), line_lexis(ls[n - 1]));
    }
}

proof fn heads_are_fine(hs: Seq<HeadV>, n: int)
    requires
        0 <= n <= hs.len(),
        heads_sane(hs),
    ensures
        all_legible(heads_lexis(hs, n)),
    decreases n,
{
    if n > 0 {
        heads_are_fine(hs, n - 1);
        assert(head_sane(hs[n - 1]));
        match hs[n - 1] {
            HeadV::Field(key, w) => {
                term_is_fine(w);
                fine_is_legible(lexis(w));
                legible_sum(seq![KindV::Word(key), KindV::Colon], lexis(w));
            },
            _ => {},
        }
        legible_sum(heads_lexis(hs, n - 1), head_lexis(hs[n - 1]));
    }
}

proof fn book_is_fine(first: Seq<LineV>, ps: Seq<PageV>, n: int)
    requires
        0 <= n <= ps.len(),
        book_sane(first, ps),
    ensures
        all_legible(book_lexis(first, ps, n)),
    decreases n,
{
    if n == 0 {
        lines_are_fine(first, first.len() as int);
    } else {
        book_is_fine(first, ps, n - 1);
        let p = ps[n - 1];
        assert(lines_sane(p.lines) && heads_sane(p.head));
        let hl = heads_lexis(p.head, p.head.len() as int);
        let ll = lines_lexis(p.lines, p.lines.len() as int);
        let sep = seq![KindV::DocSeparator];
        let end = seq![KindV::Newline];
        heads_are_fine(p.head, p.head.len() as int);
        lines_are_fine(p.lines, p.lines.len() as int);
        legible_sum(sep, hl);
        legible_sum(sep + hl, end);
        legible_sum(sep + hl + end, ll);
        legible_sum(book_lexis(first, ps, n - 1), page_lexis(p));
    }
}

proof fn book_finishes(t: StateV, ts: Seq<TokV>) -> (o: OutputV)
    requires
        t.stack.len() == 0,
        t.documents.len() > 0 ==> t.items.len() > 0,
    ensures
        outcome(t, ts, ts.len() as int) == Ok::<OutputV, DiagV>(o),
        o.diagnostics == t.diagnostics,
        o.documents.len() == t.documents.len() + 1,
        forall|k: int|
            0 <= k < t.documents.len() ==> #[trigger] o.documents[k] == t.documents[k],
        o.documents.last().header == t.header,
        o.documents.last().items == t.items,
{
    outcome(t, ts, ts.len() as int)->Ok_0
}

/// A source of several lines and documents parses without a report to its documents: each has the
/// terms on its lines for its items, in their order, and what is written on the line of its
/// separator for its header. Ends of lines and comments leave no trace in them.
pub proof fn written_book_parses(
    ms: Seq<MarkV>,
    first: Seq<LineV>,
    ps: Seq<PageV>,
    file: Text,
)
    requires
        book_sane(first, ps),
        kinds_of(ms) == book_lexis(first, ps, ps.len() as int),
        well_spaced(ms),
    ensures
        tokens_of(spelled(ms), file) matches Ok(ts) && tokens_placed(ts, ms, file) && (parsed(
            spelled(ms),
            file,
        ) matches Ok(o) && o.diagnostics.len() == 0 && book_reads(o.documents, first, ps, ts)),
{
    let n = ps.len() as int;
    book_is_fine(first, ps, n);
    tokens_are_made(ms, file);
    let ts = tokens_of(spelled(ms), file)->Ok_0;
    let t = book_is_read(first, ps, n, ts);
    assert(ps.take(n) =~= ps);
    let d = DocumentV { header: t.header, items: t.items, span: ts[0].span };
    let ds = t.documents.push(d);
    assert(n > 0 ==> t.items.len() > 0) by {
        if n > 0 {
            assert(page_reads(
                ds[n - 1 + 1],
                ps[n - 1],
                ts,
                book_lexis(first, ps, n - 1).len() as int,
            ));
            assert(ds[n] == d);
        }
    }
    let o = book_finishes(t, ts);
    assert forall|k: int| 0 <= k < ds.len() implies (#[trigger] o.documents[k]).header
        == ds[k].header && o.documents[k].items == ds[k].items by {}
    assert(o.documents[0].header == ds[0].header);
    assert forall|k: int| 0 <= k < ps.len() implies page_reads(
        #[trigger] o.documents[k + 1],
        ps[k],
        ts,
        book_lexis(first, ps, k).len() as int,
    ) by {
        assert(page_reads(ds[k + 1], ps[k], ts, book_lexis(first, ps, k).len() as int));
        assert(o.documents[k + 1].header == ds[k + 1].header);
    }
}

/// The expression that a source stands for is the first of its items: a term as it is, and a
/// declaration as an expression with its region.
pub proof fn first_item_is_the_expression(
    ms: Seq<MarkV>,
    first: Seq<LineV>,
    file: Text,
)
    requires
        first.len() > 0,
        first[0] is Term || first[0] is Decl,
        book_sane(first, Seq::empty()),
        kinds_of(ms) == lines_lexis(first, first.len() as int),
        well_spaced(ms),
    ensures
        tokens_of(spelled(ms), file) matches Ok(ts) && (first_expression(
            parsed(spelled(ms), file),
        ) matches Ok(n) && match first[0] {
            LineV::Term(w) => reads(n, w, ts, 0),
            LineV::Decl(d) => n.expr matches ExprV::Decl(decl) && declared_reads(*decl, d, ts, 0)
                && over(n.span, ts, 0, declared_lexis(d).len() as int),
            _ => false,
        }),
{
    let ps = Seq::<PageV>::empty();
    let n = first.len() as int;
    assert(book_lexis(first, ps, 0) == lines_lexis(first, n));
    written_book_parses(ms, first, ps, file);
    let ts = tokens_of(spelled(ms), file)->Ok_0;
    let o = parsed(spelled(ms), file)->Ok_0;
    first_line_is_read(o.documents[0].items, first, n, ts);
}

proof fn first_line_is_read(items: Seq<ItemV>, ls: Seq<LineV>, n: int, ts: Seq<TokV>)
    requires
        0 < n <= ls.len(),
        lines_read(items, ls, n, ts, 0),
        ls[0] is Term || ls[0] is Decl,
    ensures
        lines_read(items, ls, 1, ts, 0),
        terms_on(ls, n) > 0,
        terms_on(ls, 0) == 0,
        lines_lexis(ls, 0).len() == 0,
        lines_lexis(ls, 1).len() == line_lexis(ls[0]).len(),
    decreases n,
{
    if n > 1 {
        first_line_is_read(items, ls, n - 1, ts);
    } else {
        assert(terms_on(ls, 0) == 0);
        assert(lines_lexis(ls, 0) =~= Seq::empty());
        assert(lines_lexis(ls, 1) == lines_lexis(ls, 0) + line_lexis(ls[0]));
    }
}

} // verus!
