//! Annotations as they are written: a chain of names and of dicts of properties, each link of which
//! is annotated by what follows it.
use crate::direct::{
    annotation_at, dict_from, dict_step, plain_value, property_key, AnnReadV, DictReadV,
};
use crate::lexer::{TokV, TokenV};
use crate::model::{AnnV, EntryV, ExprV, NodeV, SpanV, Text};
use crate::node::positional;
use crate::stream::{is_immediate_at, next_significant, skipped, CommentsV};
use crate::terms::over;
use vstd::prelude::*;

verus! {

/// A property: `key: value`, or a value alone.
pub struct PropV {
    pub key: Option<Text>,
}

/// A link of an annotation.
pub enum LinkV {
    /// `name`
    Name(Text),
    /// `[property ...]`
    Props(Seq<PropV>),
}

pub open spec fn prop_width(p: PropV) -> int {
    if p.key is Some {
        3
    } else {
        1
    }
}

/// How many tokens the first `n` properties take.
pub open spec fn props_width(ps: Seq<PropV>, n: int) -> int
    decreases n,
{
    if n <= 0 || n > ps.len() {
        0
    } else {
        props_width(ps, n - 1) + prop_width(ps[n - 1])
    }
}

/// Whether a token stands for a value by itself.
pub open spec fn lone_value(t: TokenV) -> bool {
    t is Identifier || t is StringLiteral || t is Int || t is Float
}

/// Whether a token is a key: a word, or a string.
pub open spec fn names_key(t: TokenV, key: Text) -> bool {
    match t {
        TokenV::Identifier(name) => name == key,
        TokenV::StringLiteral { content, .. } => content == key,
        _ => false,
    }
}

pub open spec fn prop_written(p: PropV, ts: Seq<TokV>, a: int) -> bool {
    match p.key {
        Some(key) => names_key(ts[a].tok, key) && ts[a + 1].tok is Colon && lone_value(
            ts[a + 2].tok,
        ),
        None => lone_value(ts[a].tok),
    }
}

/// Whether a node is the value that a token stands for.
pub open spec fn value_reads(n: NodeV, t: TokV) -> bool {
    n.span == t.span && match t.tok {
        TokenV::Identifier(word) => n.expr matches ExprV::VarRef { name, escaped, annotation }
            && name == word && !escaped && annotation is None,
        TokenV::StringLiteral { prefix: x, delimiter: y, content: z } => n.expr
            matches ExprV::StringLiteral { prefix, delimiter, content } && prefix == x && delimiter
            == y && content == z,
        TokenV::Int(x) => n.expr matches ExprV::Int(y) && x == y,
        TokenV::Float(x) => n.expr matches ExprV::Float(y) && x == y,
        _ => false,
    }
}

/// Whether an entry is what a property is read as.
pub open spec fn prop_reads(e: EntryV, p: PropV, ts: Seq<TokV>, a: int) -> bool {
    match p.key {
        Some(key) => {
            &&& e.key matches Some(k) && k.span == ts[a].span && (k.expr
                matches ExprV::StringLiteral { content, .. } && content == key)
            &&& value_reads(e.value, ts[a + 2])
            &&& over(e.span, ts, a, a + 3)
        },
        None => e.key is None && value_reads(e.value, ts[a]) && e.span == ts[a].span,
    }
}

/// Whether properties and the bracket that closes them are written from a token on.
pub open spec fn props_written(ps: Seq<PropV>, ts: Seq<TokV>, a: int) -> bool {
    let e = a + props_width(ps, ps.len() as int);
    &&& 0 <= a
    &&& e < ts.len()
    &&& ts[e].tok is CloseBracket
    &&& forall|k: int|
        0 <= k < ps.len() ==> prop_written(#[trigger] ps[k], ts, a + props_width(ps, k))
}

/// Whether entries are what properties are read as, in their order.
pub open spec fn props_read(es: Seq<EntryV>, ps: Seq<PropV>, n: int, ts: Seq<TokV>, a: int) -> bool {
    es.len() == n && forall|k: int|
        0 <= k < n ==> prop_reads(#[trigger] es[k], ps[k], ts, a + props_width(ps, k))
}

proof fn widths_grow(ps: Seq<PropV>, k: int, n: int)
    requires
        0 <= k <= n <= ps.len(),
    ensures
        0 <= props_width(ps, k) <= props_width(ps, n),
        k < n ==> props_width(ps, k) + prop_width(ps[k]) <= props_width(ps, n),
    decreases n,
{
    if k < n {
        widths_grow(ps, k, n - 1);
    } else if 0 < n {
        widths_grow(ps, k - 1, n - 1);
    }
}

proof fn value_is_taken(
    ts: Seq<TokV>,
    start: SpanV,
    i: int,
    es: Seq<EntryV>,
    c: CommentsV,
) -> (after: CommentsV)
    requires
        0 <= i < ts.len(),
        lone_value(ts[i].tok),
    ensures
        plain_value(ts[i]) matches Some(v) && value_reads(v, ts[i]) && dict_from(
            ts,
            start,
            i,
            es,
            false,
            c,
        ) == dict_from(ts, start, i + 1, es.push(positional(v)), false, after),
{
    reveal(dict_step);
    assert(next_significant(ts, i) == i);
    skipped(ts, i, c)
}

proof fn keyed_value_is_taken(
    key: Text,
    ts: Seq<TokV>,
    start: SpanV,
    i: int,
    es: Seq<EntryV>,
    c: CommentsV,
) -> (r: (EntryV, CommentsV))
    requires
        0 <= i,
        i + 2 < ts.len(),
        names_key(ts[i].tok, key),
        ts[i + 1].tok is Colon,
        lone_value(ts[i + 2].tok),
    ensures
        prop_reads(r.0, PropV { key: Some(key) }, ts, i),
        dict_from(ts, start, i, es, false, c) == dict_from(
            ts,
            start,
            i + 3,
            es.push(r.0),
            false,
            r.1,
        ),
{
    reveal(dict_step);
    let b = value_is_taken(ts, start, i, es, c);
    let v = plain_value(ts[i])->0;
    let one = es.push(positional(v));
    let named = EntryV { key: Some(property_key(v)), ..positional(v) };
    let two = es.push(named);
    assert(next_significant(ts, i + 1) == i + 1);
    assert(one.last() == positional(v));
    assert(one.drop_last() =~= es);
    let d = skipped(ts, i + 1, b);
    assert(dict_from(ts, start, i + 1, one, false, b) == dict_from(ts, start, i + 2, two, true, d));
    assert(next_significant(ts, i + 2) == i + 2);
    let w = plain_value(ts[i + 2])->0;
    let whole = EntryV {
        key: named.key,
        value: w,
        span: SpanV { end_line: w.span.end_line, end_col: w.span.end_col, ..named.span },
    };
    assert(two.last() == named);
    assert(two.drop_last() =~= es);
    let e = skipped(ts, i + 2, d);
    assert(dict_from(ts, start, i + 2, two, true, d) == dict_from(
        ts,
        start,
        i + 3,
        es.push(whole),
        false,
        e,
    ));
    (whole, e)
}

proof fn props_are_read(
    ps: Seq<PropV>,
    k: int,
    ts: Seq<TokV>,
    a: int,
    start: SpanV,
    es: Seq<EntryV>,
    c: CommentsV,
) -> (d: DictReadV)
    requires
        0 <= k <= ps.len(),
        props_written(ps, ts, a),
        props_read(es, ps, k, ts, a),
    ensures
        dict_from(ts, start, a + props_width(ps, k), es, false, c) == Ok::<
            DictReadV,
            crate::direct::UnreadV,
        >(d),
        props_read(d.entries, ps, ps.len() as int, ts, a),
        d.next == a + props_width(ps, ps.len() as int) + 1,
        d.span.start_line == start.start_line,
        d.span.start_col == start.start_col,
        d.span.end_line == ts[d.next - 1].span.end_line,
        d.span.end_col == ts[d.next - 1].span.end_col,
    decreases ps.len() - k,
{
    let n = ps.len() as int;
    let i = a + props_width(ps, k);
    widths_grow(ps, k, n);
    if k == n {
        reveal(dict_step);
        assert(next_significant(ts, i) == i);
        dict_from(ts, start, i, es, false, c)->Ok_0
    } else {
        let p = ps[k];
        assert(prop_written(p, ts, i));
        assert(props_width(ps, k + 1) == props_width(ps, k) + prop_width(p));
        let (e, after) = match p.key {
            Some(key) => keyed_value_is_taken(key, ts, start, i, es, c),
            None => (
                positional(plain_value(ts[i])->0),
                value_is_taken(ts, start, i, es, c),
            ),
        };
        let more = es.push(e);
        assert(props_read(more, ps, k + 1, ts, a)) by {
            assert forall|j: int| 0 <= j < k + 1 implies prop_reads(
                #[trigger] more[j],
                ps[j],
                ts,
                a + props_width(ps, j),
            ) by {
                if j < k {
                    assert(more[j] == es[j]);
                } else {
                    assert(p == (PropV { key: p.key }));
                }
            }
        }
        props_are_read(ps, k + 1, ts, a, start, more, after)
    }
}

pub open spec fn link_width(l: LinkV) -> int {
    match l {
        LinkV::Name(_) => 1,
        LinkV::Props(ps) => props_width(ps, ps.len() as int) + 2,
    }
}

/// Whether a link is written from a token on.
pub open spec fn link_written(l: LinkV, ts: Seq<TokV>, a: int) -> bool {
    &&& 0 <= a < ts.len()
    &&& match l {
        LinkV::Name(name) => ts[a].tok == TokenV::Identifier(name),
        LinkV::Props(ps) => ts[a].tok is OpenBracket && props_written(ps, ts, a + 1),
    }
}

/// Whether a chain of links is written from a token on: an `@` before each, which from the second on
/// stands right behind what it belongs to.
pub open spec fn chain_written(ls: Seq<LinkV>, ts: Seq<TokV>, i: int) -> bool
    decreases ls.len(),
{
    &&& ls.len() > 0
    &&& 0 <= i < ts.len()
    &&& ts[i].tok is At || ts[i].tok is ImmediateAt
    &&& link_written(ls[0], ts, i + 1)
    &&& if ls.len() == 1 {
        !is_immediate_at(ts, i + 1 + link_width(ls[0]))
    } else {
        is_immediate_at(ts, i + 1 + link_width(ls[0])) && chain_written(
            ls.skip(1),
            ts,
            i + 1 + link_width(ls[0]),
        )
    }
}

/// How many tokens a chain takes.
pub open spec fn chain_width(ls: Seq<LinkV>) -> int
    decreases ls.len(),
{
    if ls.len() == 0 {
        0
    } else {
        1 + link_width(ls[0]) + chain_width(ls.skip(1))
    }
}

/// Whether an annotation is what a link is read as.
pub open spec fn link_reads(ann: AnnV, l: LinkV, ts: Seq<TokV>, a: int) -> bool {
    match l {
        LinkV::Name(name) => ann matches AnnV::Simple(s) && s == name,
        LinkV::Props(ps) => ann matches AnnV::PropertyDict(es) && props_read(
            es,
            ps,
            ps.len() as int,
            ts,
            a + 1,
        ),
    }
}

/// Whether an annotation is what a chain is read as: the first link, annotated by the rest.
pub open spec fn chain_reads(ann: AnnV, ls: Seq<LinkV>, ts: Seq<TokV>, i: int) -> bool
    decreases ls.len(),
{
    if ls.len() <= 1 {
        match ls[0] {
            LinkV::Name(name) => if name == "Expr"@ {
                ann is Quote
            } else {
                link_reads(ann, ls[0], ts, i + 1)
            },
            _ => link_reads(ann, ls[0], ts, i + 1),
        }
    } else {
        ann matches AnnV::Annotated(first, rest) && link_reads(*first, ls[0], ts, i + 1)
            && chain_reads(*rest, ls.skip(1), ts, i + 1 + link_width(ls[0]))
    }
}

/// An annotation is read as it is written: a chain of names and of dicts of properties, each
/// annotated by what follows, with the keys and values of its properties in their order. What is read
/// ends where the chain ends.
pub proof fn written_annotation_is_read(ls: Seq<LinkV>, ts: Seq<TokV>, i: int, c: CommentsV) -> (r:
    AnnReadV)
    requires
        chain_written(ls, ts, i),
    ensures
        annotation_at(ts, i, c) == Ok::<AnnReadV, crate::direct::UnreadV>(r),
        r.next == i + chain_width(ls),
        chain_reads(r.ann.ann, ls, ts, i),
        r.ann.span.start_line == ts[i + 1].span.start_line,
        r.ann.span.start_col == ts[i + 1].span.start_col,
        r.ann.span.end_line == ts[r.next - 1].span.end_line,
        r.ann.span.end_col == ts[r.next - 1].span.end_col,
    decreases ls.len(),
{
    assert(next_significant(ts, i + 1) == i + 1);
    let b = skipped(ts, i + 1, c);
    let rest = ls.skip(1);
    assert(chain_width(ls) == 1 + link_width(ls[0]) + chain_width(rest));
    assert(rest.len() == 0 ==> chain_width(rest) == 0);
    let j = i + 1 + link_width(ls[0]);
    match ls[0] {
        LinkV::Name(name) => {
            if ls.len() > 1 {
                let inner = written_annotation_is_read(rest, ts, j, b);
            }
        },
        LinkV::Props(ps) => {
            let d = props_are_read(ps, 0, ts, i + 2, ts[i + 1].span, Seq::empty(), b);
            widths_grow(ps, 0, ps.len() as int);
            assert(d.next == j);
            if ls.len() > 1 {
                let inner = written_annotation_is_read(rest, ts, j, d.comments);
            }
        },
    }
    annotation_at(ts, i, c)->Ok_0
}

} // verus!
