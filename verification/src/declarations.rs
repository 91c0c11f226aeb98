//! Declarations that are written are read: the tokens of a declaration lead to its item.
use crate::annotate::drained;
use crate::close::{close_step, closed, form_span, put_decl, respan_arms};
use crate::colon::coloned;
use crate::frame::{form_name, opened_at, ErrV, FrameV};
use crate::lexer::{TokV, TokenV};
use crate::model::{AnnotV, DeclV, EntryV, ExprV, ItemV, NodeV, SpanV, Text};
use crate::node::{positional, string_node, var_node};
use crate::open::MAX_PARSE_DEPTH;
use crate::parser::step;
use crate::place::{
    keyed, lower_name, names_of, only_lower_names, place, type_params_of,
};
use crate::reading::{
    agreeing_entries_read, calm_end, colon_is_passed, entries_agree, first_is_calm, fits, form_of,
    goes_to, key_is_token, keyword_opens, keywords, lands, lands_inside, let_is_read, part_of,
    quotes_are_quotes, same_tree, settled_lands, step_goes, term_is_read, word_is_token,
    word_key_is_taken, written, written_parts,
};
use crate::scan::KindV;
use crate::sources::{
    all_fine, fine, fine_sum, let_is_fine, parts_are_fine, term_is_fine, well_placed,
    wrapped_is_fine,
};
use crate::state::{respan, settled, with_placed, StateV, StepV};
use crate::stream::is_immediate_at;
use crate::terms::{
    bind_reads, binds_depth, binds_lexis, binds_read, depth, entries_read, entry_reads, form_lexis,
    larger, let_lexis, let_reads, lexis, over, parts_depth, parts_lexis, plain_name, primary, reads,
    sane, sane_binds, sane_parts, word, BindV, PartV, TermV,
};
use crate::text::{all_lower, starts_upper};
use crate::value::{with_word_key, word_step};
use vstd::prelude::*;

verus! {

/// An arm of an instance: `pattern: method: term ...`
pub struct BranchV {
    pub pattern: TermV,
    pub methods: Seq<PartV>,
}

/// A declaration as it is written.
pub enum DeclaredV {
    /// `[type [let a ...] body]`, or `[type body]`
    Alias { params: Seq<BindV>, body: TermV },
    /// `[type [let a ...] Name: payload ...]`
    Union { params: Seq<BindV>, parts: Seq<PartV> },
    /// `[class [let a ...] method: term ...]`
    Class { params: Seq<BindV>, methods: Seq<PartV> },
    /// `[instance Name pattern: method: term ...]`
    Instance { class: Text, arms: Seq<BranchV> },
    /// `[syntax-class name pattern: term]`
    Syntax { name: Text, pattern: TermV },
    /// `[syntax-class name pattern: term message: "text"]`
    Message { name: Text, pattern: TermV, prefix: Text, delimiter: Text, content: Text },
}

/// The lexemes of type parameters.
pub open spec fn params_lexis(params: Seq<BindV>) -> Seq<KindV> {
    if params.len() == 0 {
        Seq::empty()
    } else {
        let_lexis(params)
    }
}

pub open spec fn branch_lexis(b: BranchV) -> Seq<KindV> {
    lexis(b.pattern) + seq![KindV::Colon] + parts_lexis(b.methods, b.methods.len() as int)
}

pub open spec fn branches_lexis(bs: Seq<BranchV>, n: int) -> Seq<KindV>
    decreases n,
{
    if n <= 0 || n > bs.len() {
        Seq::empty()
    } else {
        branches_lexis(bs, n - 1) + branch_lexis(bs[n - 1])
    }
}

/// The lexemes of a declaration.
pub open spec fn declared_lexis(d: DeclaredV) -> Seq<KindV> {
    match d {
        DeclaredV::Alias { params, body } => form_lexis(
            "type"@,
            params_lexis(params) + lexis(body),
        ),
        DeclaredV::Union { params, parts } => form_lexis(
            "type"@,
            params_lexis(params) + parts_lexis(parts, parts.len() as int),
        ),
        DeclaredV::Class { params, methods } => form_lexis(
            "class"@,
            let_lexis(params) + parts_lexis(methods, methods.len() as int),
        ),
        DeclaredV::Instance { class, arms } => form_lexis(
            "instance"@,
            word(class) + branches_lexis(arms, arms.len() as int),
        ),
        DeclaredV::Syntax { name, pattern } => form_lexis(
            "syntax-class"@,
            seq![KindV::Word(name), KindV::Word("pattern"@), KindV::Colon] + lexis(pattern),
        ),
        DeclaredV::Message { name, pattern, prefix, delimiter, content } => form_lexis(
            "syntax-class"@,
            seq![KindV::Word(name), KindV::Word("pattern"@), KindV::Colon] + lexis(pattern) + seq![
                KindV::Word("message"@),
                KindV::Colon,
                KindV::Str { prefix, delimiter, content },
            ],
        ),
    }
}

/// Whether parts are methods: each has a name, and a value that stands by itself.
pub open spec fn methods_sane(ps: Seq<PartV>) -> bool {
    &&& sane_parts(ps, ps.len() as int)
    &&& forall|k: int|
        0 <= k < ps.len() ==> (#[trigger] ps[k]).key is Name && primary(ps[k].value)
}

/// Whether bindings are nothing but names.
pub open spec fn names_only(bs: Seq<BindV>) -> bool {
    sane_binds(bs, bs.len() as int) && forall|k: int|
        0 <= k < bs.len() ==> (#[trigger] bs[k]) is Name
}

/// Whether bindings are names of type parameters.
pub open spec fn lower_names(bs: Seq<BindV>) -> bool {
    names_only(bs) && forall|k: int|
        0 <= k < bs.len() ==> all_lower((#[trigger] bs[k])->Name_0)
}

/// Whether a declaration can be written.
pub open spec fn declared_sane(d: DeclaredV) -> bool {
    match d {
        DeclaredV::Alias { params, body } => lower_names(params) && sane(body) && (body is Name
            || body is Dict),
        DeclaredV::Union { params, parts } => {
            &&& lower_names(params)
            &&& methods_sane(parts)
            &&& parts.len() > 0
            &&& forall|k: int|
                0 <= k < parts.len() ==> starts_upper((#[trigger] parts[k]).key->Name_0)
        },
        DeclaredV::Class { params, methods } => names_only(params) && methods_sane(methods),
        DeclaredV::Instance { class, arms } => {
            &&& plain_name(class)
            &&& forall|k: int|
                0 <= k < arms.len() ==> sane((#[trigger] arms[k]).pattern)
                    && arms[k].pattern is Call && methods_sane(arms[k].methods) && arms[k].methods.len() > 0
        },
        DeclaredV::Syntax { name, pattern } => plain_name(name) && sane(pattern) && primary(
            pattern,
        ),
        DeclaredV::Message { name, pattern, prefix, delimiter, content } => plain_name(name)
            && sane(pattern) && primary(pattern) && sane(
            TermV::Str { prefix, delimiter, content },
        ),
    }
}

pub open spec fn branches_depth(bs: Seq<BranchV>, n: int) -> nat
    decreases n,
{
    if n <= 0 || n > bs.len() {
        0
    } else {
        larger(
            branches_depth(bs, n - 1),
            larger(
                depth(bs[n - 1].pattern),
                parts_depth(bs[n - 1].methods, bs[n - 1].methods.len() as int),
            ),
        )
    }
}

/// How deep a declaration nests.
pub open spec fn declared_depth(d: DeclaredV) -> nat {
    match d {
        DeclaredV::Alias { params, body } => 1 + larger(1, depth(body)),
        DeclaredV::Union { params, parts } => 1 + larger(
            1,
            parts_depth(parts, parts.len() as int),
        ),
        DeclaredV::Class { params, methods } => 1 + larger(
            1,
            parts_depth(methods, methods.len() as int),
        ),
        DeclaredV::Instance { arms, .. } => 1 + branches_depth(arms, arms.len() as int),
        DeclaredV::Syntax { pattern, .. } => 1 + depth(pattern),
        DeclaredV::Message { pattern, .. } => 1 + depth(pattern),
    }
}

/// Whether type parameters are what names are read as.
pub open spec fn type_params_read(
    ps: Seq<(Text, Option<AnnotV>)>,
    bs: Seq<BindV>,
) -> bool {
    &&& ps.len() == bs.len()
    &&& forall|k: int|
        0 <= k < bs.len() ==> (#[trigger] ps[k]).0 == bs[k]->Name_0 && ps[k].1 is None
}

/// Whether the entries of a union are what its constructors are read as.
pub open spec fn constructors_read(
    es: Seq<EntryV>,
    ps: Seq<PartV>,
    n: int,
    ts: Seq<TokV>,
    a: int,
) -> bool {
    forall|k: int|
        0 <= k < n ==> {
            let e = #[trigger] es[k];
            let at = a + parts_lexis(ps, k).len();
            &&& e.key matches Some(key) && key.expr == (ExprV::VarRef {
                name: ps[k].key->Name_0,
                escaped: false,
                annotation: None,
            }) && over(key.span, ts, at, at + 1)
            &&& reads(e.value, ps[k].value, ts, at + 2)
        }
}

/// Whether the arms of an instance are what is written.
pub open spec fn branches_read(
    arms: Seq<(NodeV, Seq<EntryV>)>,
    bs: Seq<BranchV>,
    n: int,
    ts: Seq<TokV>,
    a: int,
) -> bool {
    forall|k: int|
        0 <= k < n ==> {
            let arm = #[trigger] arms[k];
            let at = a + branches_lexis(bs, k).len();
            &&& reads(arm.0, bs[k].pattern, ts, at)
            &&& arm.1.len() == bs[k].methods.len()
            &&& entries_read(
                arm.1,
                bs[k].methods,
                bs[k].methods.len() as int,
                ts,
                at + lexis(bs[k].pattern).len() + 1,
            )
        }
}

/// Whether an item is what a declaration is read as that starts at token `a`.
pub open spec fn declared_reads(d: DeclV, w: DeclaredV, ts: Seq<TokV>, a: int) -> bool {
    match w {
        DeclaredV::Alias { params, body } => d matches DeclV::TypeAlias { params: ps, body: b }
            && type_params_read(ps, params) && reads(
            b,
            body,
            ts,
            a + 2 + params_lexis(params).len(),
        ),
        DeclaredV::Union { params, parts } => d matches DeclV::TypeAlias { params: ps, body }
            && type_params_read(ps, params) && (body.expr matches ExprV::Dict(es) && es.len()
            == parts.len() && constructors_read(
            es,
            parts,
            parts.len() as int,
            ts,
            a + 2 + params_lexis(params).len(),
        )),
        DeclaredV::Class { params, methods } => d matches DeclV::ClassDecl {
            name,
            params: ps,
            superclasses,
            methods: ms,
            determines,
            resolver,
            resolver_injective,
            structural,
        } && {
            &&& name.len() == 0
            &&& ps.len() == params.len()
            &&& forall|k: int| 0 <= k < params.len() ==> #[trigger] ps[k] == params[k]->Name_0
            &&& superclasses.len() == 0
            &&& determines.len() == 0
            &&& resolver is None
            &&& !resolver_injective
            &&& structural.len() == 0
            &&& ms.len() == methods.len()
            &&& entries_read(
                ms,
                methods,
                methods.len() as int,
                ts,
                a + 2 + let_lexis(params).len(),
            )
        },
        DeclaredV::Instance { class, arms } => d matches DeclV::InstanceDecl {
            class_name,
            arms: given,
        } && {
            &&& class_name.expr == (ExprV::VarRef { name: class, escaped: false, annotation: None })
            &&& given.len() == arms.len()
            &&& branches_read(given, arms, arms.len() as int, ts, a + 3)
        },
        DeclaredV::Syntax { name, pattern } => d matches DeclV::SyntaxClass {
            name: n,
            pattern: p,
            message,
        } && n == name && message is None && reads(p, pattern, ts, a + 5),
        DeclaredV::Message { name, pattern, content, .. } => d matches DeclV::SyntaxClass {
            name: n,
            pattern: p,
            message,
        } && n == name && message == Some(content) && reads(p, pattern, ts, a + 5),
    }
}

// Reading.

/// Whether a form is closed into a declaration.
#[verifier::opaque]
spec fn ends_in(f: FrameV, decl: DeclV, span: SpanV) -> bool {
    forall|p: StateV|
        #[trigger] closed(p, f, span) == put_decl(p, decl, form_span(opened_at(f), span))
}

/// A declaration that is closed outside of every form is an item.
proof fn declaration_closes(
    s: StateV,
    f: FrameV,
    decl: DeclV,
    inner: StateV,
    ts: Seq<TokV>,
    j: int,
) -> (t: StateV)
    requires
        0 <= j < ts.len(),
        ts[j].tok is CloseBracket,
        s.stack.len() == 0,
        same_tree(inner, s.stack.push(f), s.items, s),
        !(f is AnnotationCollect),
        ends_in(f, decl, ts[j].span),
    ensures
        goes_to(inner, ts, j, t, j + 1),
        same_tree(
            t,
            s.stack,
            s.items.push(ItemV::Decl(decl, form_span(opened_at(f), ts[j].span))),
            s,
        ),
{
    reveal(step);
    reveal(close_step);
    reveal(ends_in);
    let span = ts[j].span;
    assert(inner.stack.last() == f);
    assert(inner.stack.drop_last() =~= s.stack);
    let popped = StateV { stack: s.stack, popped: Some((form_name(f), opened_at(f))), ..inner };
    let b = put_decl(popped, decl, form_span(opened_at(f), span));
    let chained = is_immediate_at(ts, j + 1);
    let d = drained(b.stack, b.items, chained);
    assert(d.stack == b.stack && d.items == b.items && d.error is None);
    let t = StateV {
        last: Some(span),
        node: crate::annotate::drained_node(b.stack, b.items, chained, b.node),
        ..with_placed(b, d)
    };
    assert(step(inner, ts, j) == StepV::Next(t, j + 1));
    step_goes(inner, ts, j, t, j + 1);
    t
}

proof fn behind_method(ps: Seq<PartV>, n: int, ts: Seq<TokV>, a: int)
    requires
        0 <= n <= ps.len(),
        methods_sane(ps),
        written(ts, a, parts_lexis(ps, ps.len() as int)),
        calm_end(ts, a + parts_lexis(ps, ps.len() as int).len()),
    ensures
        calm_end(ts, a + parts_lexis(ps, n).len()),
{
    if n < ps.len() {
        part_of(ps, ps.len() as int, n, ts, a);
        assert(ps[n].key is Name);
        key_is_token(ps[n].key, ts, a + parts_lexis(ps, n).len());
    }
}

/// A form that holds methods.
spec fn holding(f: FrameV, es: Seq<EntryV>) -> FrameV {
    match f {
        FrameV::ClassDecl { name, params, pending_key, structural_metadata, span_start, .. } =>
        FrameV::ClassDecl {
            name,
            params,
            methods: es,
            pending_key,
            structural_metadata,
            span_start,
        },
        FrameV::InstanceDecl {
            class_name,
            arms,
            pending_arm_pattern,
            pending_key,
            span_start,
            ..
        } => FrameV::InstanceDecl {
            class_name,
            arms,
            pending_arm_pattern,
            pending_key,
            current_arm_methods: es,
            span_start,
        },
        _ => f,
    }
}

/// Whether a form takes methods.
spec fn takes_methods(f: FrameV) -> bool {
    match f {
        FrameV::ClassDecl { name, pending_key, .. } => name is Some && pending_key is None,
        FrameV::InstanceDecl { class_name, pending_arm_pattern, pending_key, .. } => class_name
            is Some && pending_arm_pattern is None && pending_key is None,
        _ => false,
    }
}

proof fn method_is_taken(f: FrameV, es: Seq<EntryV>, name: Text, at: SpanV, colon: SpanV, n: NodeV)
    requires
        takes_methods(f),
    ensures
        ({
            let g = with_word_key(holding(f, es), name, at);
            &&& g is Some
            &&& coloned(g->0, colon) == (g->0, None::<ErrV>)
            &&& !(g->0 is Pipe || g->0 is AnnotationCollect || g->0 is LetDecl || g->0 is Match)
            &&& place(g->0, n) == (
                holding(f, es.push(keyed(string_node(name, at), n))),
                None::<ErrV>,
            )
        }),
{
}

proof fn methods_are_read(
    ps: Seq<PartV>,
    n: int,
    f: FrameV,
    s: StateV,
    u: StateV,
    ts: Seq<TokV>,
    a: int,
) -> (r: (StateV, Seq<EntryV>))
    requires
        0 <= n <= ps.len(),
        methods_sane(ps),
        written(ts, a, parts_lexis(ps, ps.len() as int)),
        calm_end(ts, a + parts_lexis(ps, ps.len() as int).len()),
        s.stack.len() + 1 + parts_depth(ps, ps.len() as int) <= MAX_PARSE_DEPTH,
        takes_methods(f),
        same_tree(u, s.stack.push(holding(f, Seq::empty())), s.items, s),
    ensures
        goes_to(u, ts, a, r.0, a + parts_lexis(ps, n).len()),
        same_tree(r.0, s.stack.push(holding(f, r.1)), s.items, s),
        r.1.len() == n,
        entries_read(r.1, ps, n, ts, a),
    decreases n,
{
    if n == 0 {
        (u, Seq::empty())
    } else {
        let (b, es) = methods_are_read(ps, n - 1, f, s, u, ts, a);
        let p = ps[n - 1];
        let at = a + parts_lexis(ps, n - 1).len();
        part_of(ps, ps.len() as int, n - 1, ts, a);
        behind_method(ps, n, ts, a);
        assert(p.key is Name && primary(p.value));
        let name = p.key->Name_0;
        key_is_token(p.key, ts, at);
        quotes_are_quotes();
        let h = holding(f, es);
        assert(b.stack.last() == h);
        let g = with_word_key(h, name, ts[at].span)->0;
        method_is_taken(f, es, name, ts[at].span, ts[at + 1].span, arbitrary());
        let c = word_key_is_taken(b, ts, at, name, g);
        assert(c.stack =~= s.stack.push(g));
        assert(c.stack.last() == g);
        let d = colon_is_passed(c, ts, at + 1, g);
        assert(d.stack =~= s.stack.push(g));
        assert(d.stack.last() == g);
        let (e, m) = term_is_read(p.value, d, ts, at + 2);
        method_is_taken(f, es, name, ts[at].span, ts[at + 1].span, m);
        lands_inside(s, g, d, ts, at + 2, m, e, at + 2 + lexis(p.value).len());
        let entry = keyed(string_node(name, ts[at].span), m);
        let after = es.push(entry);
        assert(entries_agree(es, after, n - 1));
        agreeing_entries_read(es, after, ps, n - 1, ts, a);
        assert(entry_reads(entry, p, ts, at));
        (e, after)
    }
}

proof fn lower_binds(ns: Seq<NodeV>, bs: Seq<BindV>, n: int, ts: Seq<TokV>, a: int)
    requires
        0 <= n <= bs.len(),
        ns.len() == n,
        forall|k: int| 0 <= k < bs.len() ==> (#[trigger] bs[k]) is Name,
        binds_read(ns, bs, n, ts, a),
    ensures
        names_of(ns).len() == n,
        forall|k: int| 0 <= k < n ==> #[trigger] names_of(ns)[k] == bs[k]->Name_0,
        type_params_of(ns).len() == n,
        forall|k: int|
            0 <= k < n ==> (#[trigger] type_params_of(ns)[k]).0 == bs[k]->Name_0
                && type_params_of(ns)[k].1 is None,
        (forall|k: int| 0 <= k < bs.len() ==> all_lower((#[trigger] bs[k])->Name_0))
            ==> only_lower_names(ns),
    decreases n,
{
    if n > 0 {
        let less = ns.drop_last();
        crate::reading::longer_binds_read(ns, less, bs, n - 1, ts, a);
        lower_binds(less, bs, n - 1, ts, a);
        assert(bs[n - 1] is Name);
        assert(ns.last() == ns[n - 1]);
        assert(bind_reads(ns[n - 1], bs[n - 1], ts, a + binds_lexis(bs, n - 1).len()));
        if forall|k: int| 0 <= k < bs.len() ==> all_lower((#[trigger] bs[k])->Name_0) {
            assert(all_lower(bs[n - 1]->Name_0));
            assert forall|i: int| 0 <= i < ns.len() implies lower_name((#[trigger] ns[i]).expr) by {
                if i < n - 1 {
                    assert(lower_name(less[i].expr));
                }
            }
        }
    }
}

proof fn names_are_flat(bs: Seq<BindV>, n: int)
    requires
        0 <= n <= bs.len(),
        forall|k: int| 0 <= k < bs.len() ==> (#[trigger] bs[k]) is Name,
    ensures
        binds_depth(bs, n) == 0,
    decreases n,
{
    if n > 0 {
        names_are_flat(bs, n - 1);
        assert(bs[n - 1] is Name);
    }
}

proof fn class_is_read(
    params: Seq<BindV>,
    methods: Seq<PartV>,
    s: StateV,
    ts: Seq<TokV>,
    i: int,
) -> (r: (StateV, DeclV))
    requires
        declared_sane(DeclaredV::Class { params, methods }),
        written(ts, i, declared_lexis(DeclaredV::Class { params, methods })),
        declared_depth(DeclaredV::Class { params, methods }) <= MAX_PARSE_DEPTH,
        s.stack.len() == 0,
    ensures
        declared_lands(DeclaredV::Class { params, methods }, s, ts, i, r.0, r.1),
{
    let start = ts[i].span;
    let n = methods.len() as int;
    let ll = let_lexis(params);
    let rest = parts_lexis(methods, n);
    form_of("class"@, ll + rest, ts, i);
    written_parts(ts, i + 2, ll, rest);
    assert(fits(ts, i + 2, ll[0]));
    let a = i + 2 + ll.len();
    let j = a + rest.len();
    let f = class_with(None, Seq::empty(), Seq::empty(), start);
    let u = class_opens(s, ts, i);
    behind_method(methods, 0, ts, a);
    names_are_flat(params, params.len() as int);
    let (b, l) = let_is_read(params, u, ts, i + 2);
    let names = class_takes(params, l, start, ts, i + 2);
    lands_inside(s, f, u, ts, i + 2, l, b, a);
    let g = class_with(Some(Seq::empty()), names, Seq::empty(), start);
    let (c, es) = methods_are_read(methods, n, g, s, b, ts, a);
    let h = class_with(Some(Seq::empty()), names, es, start);
    assert(holding(g, es) == h);
    let decl = class_decl(h);
    class_shuts(h, ts[j].span);
    let t = declaration_closes(s, h, decl, c, ts, j);
    assert(entries_agree(es, respan(es), n));
    agreeing_entries_read(es, respan(es), methods, n, ts, a);
    (t, decl)
}

spec fn class_with(
    name: Option<Text>,
    params: Seq<Text>,
    methods: Seq<EntryV>,
    start: SpanV,
) -> FrameV {
    FrameV::ClassDecl {
        name,
        params,
        methods,
        pending_key: None,
        structural_metadata: None,
        span_start: start,
    }
}

proof fn class_opens(s: StateV, ts: Seq<TokV>, i: int) -> (u: StateV)
    requires
        s.stack.len() == 0,
        0 <= i,
        i + 2 < ts.len(),
        ts[i].tok is OpenBracket,
        fits(ts, i + 1, KindV::Word("class"@)),
        ts[i + 2].tok is OpenBracket,
    ensures
        goes_to(s, ts, i, u, i + 2),
        same_tree(
            u,
            s.stack.push(class_with(None, Seq::empty(), Seq::empty(), ts[i].span)),
            s.items,
            s,
        ),
{
    keywords();
    more_keywords();
    keyword_opens(
        s,
        ts,
        i,
        "class"@,
        class_with(None, Seq::empty(), Seq::empty(), ts[i].span),
    )
}

proof fn class_takes(params: Seq<BindV>, l: NodeV, start: SpanV, ts: Seq<TokV>, a: int) -> (names:
    Seq<Text>)
    requires
        let_reads(l, params, ts, a),
        names_only(params),
    ensures
        place(class_with(None, Seq::empty(), Seq::empty(), start), l) == (
            class_with(Some(Seq::empty()), names, Seq::empty(), start),
            None::<ErrV>,
        ),
        names.len() == params.len(),
        forall|k: int| 0 <= k < params.len() ==> #[trigger] names[k] == params[k]->Name_0,
{
    let ns = l.expr->LetDecl_bindings;
    lower_binds(ns, params, params.len() as int, ts, a + 2);
    assert(Seq::<Text>::empty() + names_of(ns) =~= names_of(ns));
    names_of(ns)
}

spec fn class_decl(f: FrameV) -> DeclV {
    DeclV::ClassDecl {
        name: f->ClassDecl_name->0,
        params: f->ClassDecl_params,
        superclasses: Seq::empty(),
        methods: respan(f->ClassDecl_methods),
        determines: Seq::empty(),
        resolver: None,
        resolver_injective: false,
        structural: Seq::empty(),
    }
}

proof fn class_shuts(f: FrameV, span: SpanV)
    requires
        f is ClassDecl,
        f->ClassDecl_name is Some,
        f->ClassDecl_pending_key is None,
        f->ClassDecl_structural_metadata is None,
    ensures
        ends_in(f, class_decl(f), span),
{
    reveal(ends_in);
}

proof fn more_keywords()
    ensures
        "class"@ != "fn"@ && "class"@ != "call"@ && "class"@ != "type"@ && "class"@ != "quote"@
            && "class"@ != "unquote"@ && "class"@ != "unquote-splice"@ && "class"@
            != "syntax-class"@ && "class"@ != "match"@,
        "instance"@ != "fn"@ && "instance"@ != "call"@ && "instance"@ != "type"@ && "instance"@
            != "quote"@ && "instance"@ != "unquote"@ && "instance"@ != "unquote-splice"@
            && "instance"@ != "syntax-class"@ && "instance"@ != "match"@ && "instance"@ != "class"@,
        "type"@ != "fn"@ && "type"@ != "call"@,
        "syntax-class"@ != "fn"@ && "syntax-class"@ != "call"@ && "syntax-class"@ != "type"@
            && "syntax-class"@ != "quote"@ && "syntax-class"@ != "unquote"@ && "syntax-class"@
            != "unquote-splice"@,
        "pattern"@ != "message"@,
        plain_name("pattern"@),
        plain_name("message"@),
{
    reveal_strlit("call");
    reveal_strlit("fn");
    reveal_strlit("quote");
    reveal_strlit("unquote");
    reveal_strlit("unquote-splice");
    reveal_strlit("match");
    reveal_strlit("type");
    reveal_strlit("class");
    reveal_strlit("instance");
    reveal_strlit("pattern");
    reveal_strlit("message");
    reveal_strlit("syntax-class");
    reveal_strlit("let");
    reveal_strlit("case");
    reveal_strlit("---");
    assert("call"@.len() == 4 && "type"@.len() == 4 && "fn"@.len() == 2);
    assert("quote"@.len() == 5 && "match"@.len() == 5 && "class"@.len() == 5);
    assert("unquote"@.len() == 7 && "pattern"@.len() == 7 && "message"@.len() == 7);
    assert("instance"@.len() == 8 && "unquote-splice"@.len() == 14 && "syntax-class"@.len() == 12);
    assert("let"@.len() == 3 && "case"@.len() == 4 && "---"@.len() == 3);
    assert("type"@[0] == 't' && "call"@[0] == 'c');
    assert("class"@[0] == 'c' && "quote"@[0] == 'q' && "match"@[0] == 'm');
    assert("pattern"@[0] == 'p' && "message"@[0] == 'm');
}

// Types.

spec fn type_with(
    params: Seq<(Text, Option<AnnotV>)>,
    exprs: Seq<EntryV>,
    pending: Option<NodeV>,
    start: SpanV,
) -> FrameV {
    FrameV::TypeAlias { params, type_exprs: exprs, pending_key: pending, span_start: start }
}

proof fn type_opens(s: StateV, ts: Seq<TokV>, i: int) -> (u: StateV)
    requires
        s.stack.len() == 0,
        0 <= i,
        i + 2 < ts.len(),
        ts[i].tok is OpenBracket,
        fits(ts, i + 1, KindV::Word("type"@)),
        calm_end(ts, i + 2),
    ensures
        goes_to(s, ts, i, u, i + 2),
        same_tree(
            u,
            s.stack.push(type_with(Seq::empty(), Seq::empty(), None, ts[i].span)),
            s.items,
            s,
        ),
{
    keywords();
    more_keywords();
    keyword_opens(
        s,
        ts,
        i,
        "type"@,
        type_with(Seq::empty(), Seq::empty(), None, ts[i].span),
    )
}

proof fn type_takes_params(params: Seq<BindV>, l: NodeV, start: SpanV, ts: Seq<TokV>, a: int) -> (ps:
    Seq<(Text, Option<AnnotV>)>)
    requires
        let_reads(l, params, ts, a),
        lower_names(params),
    ensures
        place(type_with(Seq::empty(), Seq::empty(), None, start), l) == (
            type_with(ps, Seq::empty(), None, start),
            None::<ErrV>,
        ),
        type_params_read(ps, params),
{
    let ns = l.expr->LetDecl_bindings;
    lower_binds(ns, params, params.len() as int, ts, a + 2);
    let ps = type_params_of(ns);
    assert(Seq::<(Text, Option<AnnotV>)>::empty() + ps =~= ps);
    ps
}

/// The parameters of a type are read, where there are any.
proof fn type_params_are_read(
    params: Seq<BindV>,
    s: StateV,
    u: StateV,
    ts: Seq<TokV>,
    a: int,
    start: SpanV,
) -> (r:
    (StateV, Seq<(Text, Option<AnnotV>)>))
    requires
        lower_names(params),
        written(ts, a, params_lexis(params)),
        calm_end(ts, a + params_lexis(params).len()),
        s.stack.len() + 2 <= MAX_PARSE_DEPTH,
        same_tree(
            u,
            s.stack.push(type_with(Seq::empty(), Seq::empty(), None, start)),
            s.items,
            s,
        ),
    ensures
        goes_to(u, ts, a, r.0, a + params_lexis(params).len()),
        same_tree(r.0, s.stack.push(type_with(r.1, Seq::empty(), None, start)), s.items, s),
        type_params_read(r.1, params),
{
    if params.len() == 0 {
        (u, Seq::empty())
    } else {
        let f = type_with(Seq::empty(), Seq::empty(), None, start);
        names_are_flat(params, params.len() as int);
        let (b, l) = let_is_read(params, u, ts, a);
        let ps = type_takes_params(params, l, start, ts, a);
        lands_inside(s, f, u, ts, a, l, b, a + let_lexis(params).len());
        (b, ps)
    }
}

proof fn params_first(params: Seq<BindV>, rest: Seq<KindV>, ts: Seq<TokV>, a: int)
    requires
        written(ts, a, params_lexis(params) + rest),
        calm_end(ts, a + params_lexis(params).len()),
    ensures
        calm_end(ts, a),
{
    written_parts(ts, a, params_lexis(params), rest);
    if params.len() > 0 {
        assert(let_lexis(params)[0] is Open);
        assert(fits(ts, a + 0, let_lexis(params)[0]));
    }
}

proof fn alias_shuts(ps: Seq<(Text, Option<AnnotV>)>, body: NodeV, start: SpanV, span: SpanV)
    ensures
        ends_in(
            type_with(ps, seq![positional(body)], None, start),
            DeclV::TypeAlias { params: ps, body },
            span,
        ),
{
    reveal(ends_in);
}

proof fn type_takes_body(ps: Seq<(Text, Option<AnnotV>)>, m: NodeV, start: SpanV)
    requires
        m.expr is VarRef || m.expr is Dict,
    ensures
        place(type_with(ps, Seq::empty(), None, start), m) == (
            type_with(ps, seq![positional(m)], None, start),
            None::<ErrV>,
        ),
{
    assert(Seq::<EntryV>::empty().push(positional(m)) =~= seq![positional(m)]);
}

proof fn alias_is_read(params: Seq<BindV>, body: TermV, s: StateV, ts: Seq<TokV>, i: int) -> (r: (
    StateV,
    DeclV,
))
    requires
        declared_sane(DeclaredV::Alias { params, body }),
        written(ts, i, declared_lexis(DeclaredV::Alias { params, body })),
        declared_depth(DeclaredV::Alias { params, body }) <= MAX_PARSE_DEPTH,
        s.stack.len() == 0,
    ensures
        declared_lands(DeclaredV::Alias { params, body }, s, ts, i, r.0, r.1),
{
    let start = ts[i].span;
    let pl = params_lexis(params);
    form_of("type"@, pl + lexis(body), ts, i);
    written_parts(ts, i + 2, pl, lexis(body));
    let a = i + 2 + pl.len();
    let j = a + lexis(body).len();
    first_is_calm(body, ts, a);
    params_first(params, lexis(body), ts, i + 2);
    let u = type_opens(s, ts, i);
    let (b, ps) = type_params_are_read(params, s, u, ts, i + 2, start);
    let f = type_with(ps, Seq::empty(), None, start);
    assert(b.stack.last() == f);
    let (c, m) = term_is_read(body, b, ts, a);
    type_takes_body(ps, m, start);
    lands_inside(s, f, b, ts, a, m, c, j);
    let g = type_with(ps, seq![positional(m)], None, start);
    let decl = DeclV::TypeAlias { params: ps, body: m };
    alias_shuts(ps, m, start, ts[j].span);
    let t = declaration_closes(s, g, decl, c, ts, j);
    (t, decl)
}

/// Whether what is read of a declaration is its item.
spec fn declared_lands(
    w: DeclaredV,
    s: StateV,
    ts: Seq<TokV>,
    i: int,
    t: StateV,
    decl: DeclV,
) -> bool {
    let j = i + declared_lexis(w).len();
    &&& goes_to(s, ts, i, t, j)
    &&& same_tree(
        t,
        s.stack,
        s.items.push(ItemV::Decl(decl, form_span(ts[i].span, ts[j - 1].span))),
        s,
    )
    &&& declared_reads(decl, w, ts, i)
}

/// A name in `[type ...]` is put into it, whatever follows.
proof fn constructor_settles(u: StateV, ts: Seq<TokV>, i: int, name: Text) -> (t: StateV)
    requires
        0 <= i,
        i + 1 < ts.len(),
        ts[i].tok == TokenV::Identifier(name),
        ts[i + 1].tok is Colon,
        u.stack.len() > 0,
        u.stack.last() is TypeAlias,
    ensures
        lands(u, ts, i, var_node(name, false, ts[i].span), t, i + 1),
{
    reveal(step);
    reveal(word_step);
    let n = var_node(name, false, ts[i].span);
    assert(step(u, ts, i) == settled(u, n, ts[i].span, ts, i));
    settled_lands(u, n, ts[i].span, ts, i)
}

proof fn constructor_is_taken(
    ps: Seq<(Text, Option<AnnotV>)>,
    es: Seq<EntryV>,
    key: NodeV,
    m: NodeV,
    start: SpanV,
    colon: SpanV,
)
    requires
        key.expr matches ExprV::VarRef { name, .. } && starts_upper(name),
        forall|k: int| 0 <= k < es.len() ==> (#[trigger] es[k]).key is Some,
    ensures
        place(type_with(ps, es, None, start), key) == (
            type_with(ps, es.push(positional(key)), None, start),
            None::<ErrV>,
        ),
        coloned(type_with(ps, es.push(positional(key)), None, start), colon) == (
            type_with(ps, es, Some(key), start),
            None::<ErrV>,
        ),
        place(type_with(ps, es, Some(key), start), m) == (
            type_with(
                ps,
                es.push(EntryV { key: Some(key), value: m, span: m.span }),
                None,
                start,
            ),
            None::<ErrV>,
        ),
{
    assert(es.push(positional(key)).drop_last() =~= es);
}

proof fn constructors_are_read(
    parts: Seq<PartV>,
    n: int,
    ps: Seq<(Text, Option<AnnotV>)>,
    start: SpanV,
    s: StateV,
    u: StateV,
    ts: Seq<TokV>,
    a: int,
) -> (r: (StateV, Seq<EntryV>))
    requires
        0 <= n <= parts.len(),
        methods_sane(parts),
        forall|k: int|
            0 <= k < parts.len() ==> starts_upper((#[trigger] parts[k]).key->Name_0),
        written(ts, a, parts_lexis(parts, parts.len() as int)),
        calm_end(ts, a + parts_lexis(parts, parts.len() as int).len()),
        s.stack.len() + 1 + parts_depth(parts, parts.len() as int) <= MAX_PARSE_DEPTH,
        same_tree(u, s.stack.push(type_with(ps, Seq::empty(), None, start)), s.items, s),
    ensures
        goes_to(u, ts, a, r.0, a + parts_lexis(parts, n).len()),
        same_tree(r.0, s.stack.push(type_with(ps, r.1, None, start)), s.items, s),
        r.1.len() == n,
        forall|k: int| 0 <= k < n ==> (#[trigger] r.1[k]).key is Some,
        constructors_read(r.1, parts, n, ts, a),
    decreases n,
{
    if n == 0 {
        (u, Seq::empty())
    } else {
        let (b, es) = constructors_are_read(parts, n - 1, ps, start, s, u, ts, a);
        let p = parts[n - 1];
        let at = a + parts_lexis(parts, n - 1).len();
        part_of(parts, parts.len() as int, n - 1, ts, a);
        behind_method(parts, n, ts, a);
        assert(p.key is Name && primary(p.value));
        let name = p.key->Name_0;
        assert(starts_upper(name));
        key_is_token(p.key, ts, at);
        let f = type_with(ps, es, None, start);
        let key = var_node(name, false, ts[at].span);
        let colon = ts[at + 1].span;
        assert(b.stack.last() == f);
        let c = constructor_settles(b, ts, at, name);
        constructor_is_taken(ps, es, key, key, start, colon);
        lands_inside(s, f, b, ts, at, key, c, at + 1);
        let g = type_with(ps, es.push(positional(key)), None, start);
        assert(c.stack.last() == g);
        let h = type_with(ps, es, Some(key), start);
        let d = colon_is_passed(c, ts, at + 1, h);
        assert(d.stack =~= s.stack.push(h));
        assert(d.stack.last() == h);
        let (e, m) = term_is_read(p.value, d, ts, at + 2);
        constructor_is_taken(ps, es, key, m, start, colon);
        lands_inside(s, h, d, ts, at + 2, m, e, at + 2 + lexis(p.value).len());
        let entry = EntryV { key: Some(key), value: m, span: m.span };
        let after = es.push(entry);
        assert forall|k: int| 0 <= k < n implies {
            let x = #[trigger] after[k];
            let from = a + parts_lexis(parts, k).len();
            &&& x.key matches Some(key) && key.expr == (ExprV::VarRef {
                name: parts[k].key->Name_0,
                escaped: false,
                annotation: None,
            }) && over(key.span, ts, from, from + 1)
            &&& reads(x.value, parts[k].value, ts, from + 2)
        } by {
            if k < n - 1 {
                assert(after[k] == es[k]);
            }
        }
        (e, after)
    }
}

proof fn union_shuts(
    ps: Seq<(Text, Option<AnnotV>)>,
    es: Seq<EntryV>,
    start: SpanV,
    span: SpanV,
)
    requires
        es.len() > 0,
        es[0].key is Some,
    ensures
        ends_in(type_with(ps, es, None, start), union_decl(ps, es, form_span(start, span)), span),
{
    reveal(ends_in);
}

spec fn union_decl(
    ps: Seq<(Text, Option<AnnotV>)>,
    es: Seq<EntryV>,
    span: SpanV,
) -> DeclV {
    DeclV::TypeAlias { params: ps, body: NodeV { expr: ExprV::Dict(es), span } }
}

proof fn union_is_read(
    params: Seq<BindV>,
    parts: Seq<PartV>,
    s: StateV,
    ts: Seq<TokV>,
    i: int,
) -> (r: (StateV, DeclV))
    requires
        declared_sane(DeclaredV::Union { params, parts }),
        written(ts, i, declared_lexis(DeclaredV::Union { params, parts })),
        declared_depth(DeclaredV::Union { params, parts }) <= MAX_PARSE_DEPTH,
        s.stack.len() == 0,
    ensures
        declared_lands(DeclaredV::Union { params, parts }, s, ts, i, r.0, r.1),
{
    let start = ts[i].span;
    let n = parts.len() as int;
    let pl = params_lexis(params);
    let rest = parts_lexis(parts, n);
    form_of("type"@, pl + rest, ts, i);
    written_parts(ts, i + 2, pl, rest);
    let a = i + 2 + pl.len();
    let j = a + rest.len();
    behind_method(parts, 0, ts, a);
    params_first(params, rest, ts, i + 2);
    let u = type_opens(s, ts, i);
    let (b, ps) = type_params_are_read(params, s, u, ts, i + 2, start);
    let (c, es) = constructors_are_read(parts, n, ps, start, s, b, ts, a);
    let g = type_with(ps, es, None, start);
    let decl = union_decl(ps, es, form_span(start, ts[j].span));
    union_shuts(ps, es, start, ts[j].span);
    let t = declaration_closes(s, g, decl, c, ts, j);
    (t, decl)
}

// Syntax classes.

spec fn syntax_with(
    name: Option<Text>,
    pattern: Option<NodeV>,
    message: Option<Text>,
    pending: Option<NodeV>,
    start: SpanV,
) -> FrameV {
    FrameV::SyntaxClass { name, pattern, message, pending_key: pending, span_start: start }
}

proof fn syntax_opens(s: StateV, ts: Seq<TokV>, i: int) -> (u: StateV)
    requires
        s.stack.len() == 0,
        0 <= i,
        i + 2 < ts.len(),
        ts[i].tok is OpenBracket,
        fits(ts, i + 1, KindV::Word("syntax-class"@)),
        calm_end(ts, i + 2),
    ensures
        goes_to(s, ts, i, u, i + 2),
        same_tree(
            u,
            s.stack.push(syntax_with(None, None, None, None, ts[i].span)),
            s.items,
            s,
        ),
{
    keywords();
    more_keywords();
    keyword_opens(s, ts, i, "syntax-class"@, syntax_with(None, None, None, None, ts[i].span))
}

/// A field of a syntax class is read.
proof fn syntax_field_is_read(
    key: Text,
    w: TermV,
    name: Text,
    pattern: Option<NodeV>,
    start: SpanV,
    s: StateV,
    u: StateV,
    ts: Seq<TokV>,
    at: int,
) -> (r: (StateV, NodeV))
    requires
        plain_name(key),
        sane(w),
        primary(w),
        written(ts, at, seq![KindV::Word(key), KindV::Colon] + lexis(w)),
        calm_end(ts, at + 2 + lexis(w).len()),
        s.stack.len() + 1 + depth(w) <= MAX_PARSE_DEPTH,
        same_tree(
            u,
            s.stack.push(syntax_with(Some(name), pattern, None, None, start)),
            s.items,
            s,
        ),
        key == "pattern"@ && pattern is None || key == "message"@ && w is Str,
    ensures
        goes_to(u, ts, at, r.0, at + 2 + lexis(w).len()),
        reads(r.1, w, ts, at + 2),
        key == "pattern"@ ==> same_tree(
            r.0,
            s.stack.push(syntax_with(Some(name), Some(r.1), None, None, start)),
            s.items,
            s,
        ),
        key == "message"@ ==> same_tree(
            r.0,
            s.stack.push(
                syntax_with(Some(name), pattern, Some(w->Str_content), None, start),
            ),
            s.items,
            s,
        ),
{
    more_keywords();
    let head = seq![KindV::Word(key), KindV::Colon];
    written_parts(ts, at, head, lexis(w));
    assert(fits(ts, at + 0, head[0]));
    assert(fits(ts, at + 1, head[1]));
    word_is_token(key);
    let f = syntax_with(Some(name), pattern, None, None, start);
    assert(u.stack.last() == f);
    let k = string_node(key, ts[at].span);
    let g = syntax_with(Some(name), pattern, None, Some(k), start);
    let c = word_key_is_taken(u, ts, at, key, g);
    assert(c.stack =~= s.stack.push(g));
    assert(c.stack.last() == g);
    let d = colon_is_passed(c, ts, at + 1, g);
    assert(d.stack =~= s.stack.push(g));
    assert(d.stack.last() == g);
    let (e, m) = term_is_read(w, d, ts, at + 2);
    lands_inside(s, g, d, ts, at + 2, m, e, at + 2 + lexis(w).len());
    (e, m)
}

proof fn syntax_name_is_read(
    name: Text,
    start: SpanV,
    s: StateV,
    u: StateV,
    ts: Seq<TokV>,
    at: int,
) -> (t:
    StateV)
    requires
        plain_name(name),
        written(ts, at, word(name)),
        calm_end(ts, at + 1),
        s.stack.len() + 1 <= MAX_PARSE_DEPTH,
        same_tree(u, s.stack.push(syntax_with(None, None, None, None, start)), s.items, s),
    ensures
        goes_to(u, ts, at, t, at + 1),
        same_tree(
            t,
            s.stack.push(syntax_with(Some(name), None, None, None, start)),
            s.items,
            s,
        ),
{
    let f = syntax_with(None, None, None, None, start);
    assert(u.stack.last() == f);
    let w = TermV::Name(name);
    assert(lexis(w) == word(name));
    let (b, m) = term_is_read(w, u, ts, at);
    lands_inside(s, f, u, ts, at, m, b, at + 1);
    b
}

proof fn syntax_shuts(
    name: Text,
    pattern: NodeV,
    message: Option<Text>,
    start: SpanV,
    span: SpanV,
)
    ensures
        ends_in(
            syntax_with(Some(name), Some(pattern), message, None, start),
            DeclV::SyntaxClass { name, pattern, message },
            span,
        ),
{
    reveal(ends_in);
}

/// What comes before the message of a syntax class is read.
proof fn syntax_start_is_read(
    name: Text,
    pattern: TermV,
    tail: Seq<KindV>,
    s: StateV,
    ts: Seq<TokV>,
    i: int,
) -> (r: (StateV, NodeV))
    requires
        plain_name(name),
        sane(pattern),
        primary(pattern),
        written(ts, i, form_lexis("syntax-class"@, syntax_start(name, pattern) + tail)),
        1 + depth(pattern) <= MAX_PARSE_DEPTH,
        s.stack.len() == 0,
        calm_end(ts, i + 5 + lexis(pattern).len()),
    ensures
        goes_to(s, ts, i, r.0, i + 5 + lexis(pattern).len()),
        reads(r.1, pattern, ts, i + 5),
        same_tree(
            r.0,
            s.stack.push(syntax_with(Some(name), Some(r.1), None, None, ts[i].span)),
            s.items,
            s,
        ),
{
    more_keywords();
    let key = seq![KindV::Word("pattern"@), KindV::Colon];
    let field = key + lexis(pattern);
    form_of("syntax-class"@, syntax_start(name, pattern) + tail, ts, i);
    written_parts(ts, i + 2, syntax_start(name, pattern), tail);
    assert(syntax_start(name, pattern) =~= word(name) + field);
    written_parts(ts, i + 2, word(name), field);
    assert(fits(ts, i + 2 + 0, word(name)[0]));
    word_is_token(name);
    assert(fits(ts, i + 3 + 0, field[0]));
    word_is_token("pattern"@);
    let u = syntax_opens(s, ts, i);
    let b = syntax_name_is_read(name, ts[i].span, s, u, ts, i + 2);
    syntax_field_is_read("pattern"@, pattern, name, None, ts[i].span, s, b, ts, i + 3)
}

spec fn syntax_start(name: Text, pattern: TermV) -> Seq<KindV> {
    seq![KindV::Word(name), KindV::Word("pattern"@), KindV::Colon] + lexis(pattern)
}

proof fn syntax_is_read(name: Text, pattern: TermV, s: StateV, ts: Seq<TokV>, i: int) -> (r: (
    StateV,
    DeclV,
))
    requires
        declared_sane(DeclaredV::Syntax { name, pattern }),
        written(ts, i, declared_lexis(DeclaredV::Syntax { name, pattern })),
        declared_depth(DeclaredV::Syntax { name, pattern }) <= MAX_PARSE_DEPTH,
        s.stack.len() == 0,
    ensures
        declared_lands(DeclaredV::Syntax { name, pattern }, s, ts, i, r.0, r.1),
{
    let start = ts[i].span;
    let head = syntax_start(name, pattern);
    assert(head + Seq::<KindV>::empty() =~= head);
    form_of("syntax-class"@, head, ts, i);
    let j = i + 5 + lexis(pattern).len();
    let (c, p) = syntax_start_is_read(name, pattern, Seq::empty(), s, ts, i);
    let g = syntax_with(Some(name), Some(p), None, None, start);
    let decl = DeclV::SyntaxClass { name, pattern: p, message: None };
    syntax_shuts(name, p, None, start, ts[j].span);
    let t = declaration_closes(s, g, decl, c, ts, j);
    (t, decl)
}

proof fn message_is_read(
    name: Text,
    pattern: TermV,
    m: TermV,
    s: StateV,
    ts: Seq<TokV>,
    i: int,
) -> (r: (StateV, NodeV))
    requires
        m is Str,
        sane(m),
        plain_name(name),
        sane(pattern),
        primary(pattern),
        written(
            ts,
            i,
            form_lexis(
                "syntax-class"@,
                syntax_start(name, pattern) + (seq![KindV::Word("message"@), KindV::Colon]
                    + lexis(m)),
            ),
        ),
        1 + depth(pattern) <= MAX_PARSE_DEPTH,
        1 + depth(m) <= MAX_PARSE_DEPTH,
        s.stack.len() == 0,
    ensures
        goes_to(s, ts, i, r.0, i + 7 + lexis(pattern).len() + lexis(m).len()),
        reads(r.1, pattern, ts, i + 5),
        same_tree(
            r.0,
            s.stack.push(
                syntax_with(Some(name), Some(r.1), Some(m->Str_content), None, ts[i].span),
            ),
            s.items,
            s,
        ),
{
    more_keywords();
    let head = syntax_start(name, pattern);
    let tail = seq![KindV::Word("message"@), KindV::Colon] + lexis(m);
    form_of("syntax-class"@, head + tail, ts, i);
    written_parts(ts, i + 2, head, tail);
    let a = i + 5 + lexis(pattern).len();
    assert(fits(ts, a + 0, tail[0]));
    word_is_token("message"@);
    let (c, p) = syntax_start_is_read(name, pattern, tail, s, ts, i);
    let (d, x) = syntax_field_is_read("message"@, m, name, Some(p), ts[i].span, s, c, ts, a);
    (d, p)
}

proof fn syntax_with_message_is_read(w: DeclaredV, s: StateV, ts: Seq<TokV>, i: int) -> (r: (
    StateV,
    DeclV,
))
    requires
        w is Message,
        declared_sane(w),
        written(ts, i, declared_lexis(w)),
        declared_depth(w) <= MAX_PARSE_DEPTH,
        s.stack.len() == 0,
    ensures
        declared_lands(w, s, ts, i, r.0, r.1),
{
    match w {
        DeclaredV::Message { name, pattern, prefix, delimiter, content } => {
            let start = ts[i].span;
            let m = TermV::Str { prefix, delimiter, content };
            let head = syntax_start(name, pattern);
            let tail = seq![KindV::Word("message"@), KindV::Colon] + lexis(m);
            let lexemes = seq![
                KindV::Word("message"@),
                KindV::Colon,
                KindV::Str { prefix, delimiter, content },
            ];
            assert(tail =~= lexemes);
            form_of("syntax-class"@, head + tail, ts, i);
            let j = i + 8 + lexis(pattern).len();
            let (d, p) = message_is_read(name, pattern, m, s, ts, i);
            let g = syntax_with(Some(name), Some(p), Some(content), None, start);
            let decl = DeclV::SyntaxClass { name, pattern: p, message: Some(content) };
            syntax_shuts(name, p, Some(content), start, ts[j].span);
            let t = declaration_closes(s, g, decl, d, ts, j);
            (t, decl)
        },
        _ => arbitrary(),
    }
}

// Instances.

spec fn instance_with(
    class: NodeV,
    arms: Seq<(NodeV, Seq<EntryV>)>,
    pattern: Option<NodeV>,
    methods: Seq<EntryV>,
    start: SpanV,
) -> FrameV {
    FrameV::InstanceDecl {
        class_name: Some(class),
        arms,
        pending_arm_pattern: pattern,
        pending_key: None,
        current_arm_methods: methods,
        span_start: start,
    }
}

spec fn instance_frame(start: SpanV) -> FrameV {
    FrameV::InstanceDecl {
        class_name: None,
        arms: Seq::empty(),
        pending_arm_pattern: None,
        pending_key: None,
        current_arm_methods: Seq::empty(),
        span_start: start,
    }
}

proof fn instance_opens(s: StateV, ts: Seq<TokV>, i: int) -> (u: StateV)
    requires
        s.stack.len() == 0,
        0 <= i,
        i + 2 < ts.len(),
        ts[i].tok is OpenBracket,
        fits(ts, i + 1, KindV::Word("instance"@)),
        calm_end(ts, i + 2),
    ensures
        goes_to(s, ts, i, u, i + 2),
        same_tree(u, s.stack.push(instance_frame(ts[i].span)), s.items, s),
{
    keywords();
    more_keywords();
    keyword_opens(s, ts, i, "instance"@, instance_frame(ts[i].span))
}

proof fn branch_of(bs: Seq<BranchV>, n: int, k: int, ts: Seq<TokV>, a: int)
    requires
        0 <= k < n <= bs.len(),
        written(ts, a, branches_lexis(bs, n)),
    ensures
        written(ts, a + branches_lexis(bs, k).len(), branch_lexis(bs[k])),
        branches_lexis(bs, k).len() + branch_lexis(bs[k]).len() == branches_lexis(
            bs,
            k + 1,
        ).len(),
        depth(bs[k].pattern) <= branches_depth(bs, n),
        parts_depth(bs[k].methods, bs[k].methods.len() as int) <= branches_depth(bs, n),
    decreases n,
{
    written_parts(ts, a, branches_lexis(bs, n - 1), branch_lexis(bs[n - 1]));
    if k < n - 1 {
        branch_of(bs, n - 1, k, ts, a);
    }
}

spec fn branch_sane(b: BranchV) -> bool {
    sane(b.pattern) && b.pattern is Call && methods_sane(b.methods) && b.methods.len() > 0
}

proof fn behind_branch(bs: Seq<BranchV>, n: int, ts: Seq<TokV>, a: int)
    requires
        0 <= n <= bs.len(),
        forall|k: int| 0 <= k < bs.len() ==> branch_sane(#[trigger] bs[k]),
        written(ts, a, branches_lexis(bs, bs.len() as int)),
        calm_end(ts, a + branches_lexis(bs, bs.len() as int).len()),
    ensures
        calm_end(ts, a + branches_lexis(bs, n).len()),
{
    if n < bs.len() {
        branch_of(bs, bs.len() as int, n, ts, a);
        let b = bs[n];
        assert(branch_sane(b));
        let at = a + branches_lexis(bs, n).len();
        let ml = parts_lexis(b.methods, b.methods.len() as int);
        written_parts(ts, at, lexis(b.pattern) + seq![KindV::Colon], ml);
        written_parts(ts, at, lexis(b.pattern), seq![KindV::Colon]);
        first_is_calm(b.pattern, ts, at);
    }
}

/// The arms that are complete: the methods that were read last belong to the last arm.
spec fn complete_arms(arms: Seq<(NodeV, Seq<EntryV>)>, methods: Seq<EntryV>) -> Seq<
    (NodeV, Seq<EntryV>),
> {
    crate::close::with_methods(arms, methods)
}

proof fn branch_is_taken(
    class: NodeV,
    arms: Seq<(NodeV, Seq<EntryV>)>,
    methods: Seq<EntryV>,
    x: NodeV,
    start: SpanV,
    colon: SpanV,
)
    requires
        x.expr is Call,
        arms.len() == 0 ==> methods.len() == 0,
    ensures
        place(instance_with(class, arms, None, methods, start), x) == (
            instance_with(class, arms, Some(x), methods, start),
            None::<ErrV>,
        ),
        coloned(instance_with(class, arms, Some(x), methods, start), colon) == (
            instance_with(
                class,
                complete_arms(arms, methods).push((x, Seq::empty())),
                None,
                Seq::empty(),
                start,
            ),
            None::<ErrV>,
        ),
{
    if arms.len() == 0 {
        assert(methods =~= Seq::empty());
    }
}

proof fn branches_are_read(
    bs: Seq<BranchV>,
    n: int,
    class: NodeV,
    start: SpanV,
    s: StateV,
    u: StateV,
    ts: Seq<TokV>,
    a: int,
) -> (r: (StateV, Seq<(NodeV, Seq<EntryV>)>, Seq<EntryV>))
    requires
        0 <= n <= bs.len(),
        forall|k: int| 0 <= k < bs.len() ==> branch_sane(#[trigger] bs[k]),
        written(ts, a, branches_lexis(bs, bs.len() as int)),
        calm_end(ts, a + branches_lexis(bs, bs.len() as int).len()),
        s.stack.len() + 1 + branches_depth(bs, bs.len() as int) <= MAX_PARSE_DEPTH,
        same_tree(
            u,
            s.stack.push(instance_with(class, Seq::empty(), None, Seq::empty(), start)),
            s.items,
            s,
        ),
    ensures
        goes_to(u, ts, a, r.0, a + branches_lexis(bs, n).len()),
        same_tree(r.0, s.stack.push(instance_with(class, r.1, None, r.2, start)), s.items, s),
        r.1.len() == n,
        n == 0 ==> r.2.len() == 0,
        complete_arms(r.1, r.2).len() == n,
        branches_read(complete_arms(r.1, r.2), bs, n, ts, a),
    decreases n,
{
    if n == 0 {
        (u, Seq::empty(), Seq::empty())
    } else {
        let (b, arms, methods) = branches_are_read(bs, n - 1, class, start, s, u, ts, a);
        let w = bs[n - 1];
        assert(branch_sane(w));
        let at = a + branches_lexis(bs, n - 1).len();
        branch_of(bs, bs.len() as int, n - 1, ts, a);
        behind_branch(bs, n, ts, a);
        let m = w.methods.len() as int;
        let ml = parts_lexis(w.methods, m);
        let colon = seq![KindV::Colon];
        written_parts(ts, at, lexis(w.pattern) + colon, ml);
        written_parts(ts, at, lexis(w.pattern), colon);
        let j = at + lexis(w.pattern).len();
        assert(fits(ts, j + 0, colon[0]));
        let f = instance_with(class, arms, None, methods, start);
        assert(b.stack.last() == f);
        let (c, x) = call_is_read_before_colon(w.pattern, b, ts, at);
        branch_is_taken(class, arms, methods, x, start, ts[j].span);
        lands_inside(s, f, b, ts, at, x, c, j);
        let g = instance_with(class, arms, Some(x), methods, start);
        assert(c.stack.last() == g);
        let before = complete_arms(arms, methods);
        let more = before.push((x, Seq::empty()));
        let h = instance_with(class, more, None, Seq::empty(), start);
        let d = colon_is_passed(c, ts, j, h);
        assert(d.stack =~= s.stack.push(h));
        assert(holding(h, Seq::empty()) == h);
        let (e, es) = methods_are_read(w.methods, m, h, s, d, ts, j + 1);
        assert(holding(h, es) == instance_with(class, more, None, es, start));
        let after = complete_arms(more, es);
        assert(after =~= before.push((x, es))) by {
            assert(more.drop_last() =~= before);
            assert(Seq::<EntryV>::empty() + es =~= es);
        }
        assert forall|k: int| 0 <= k < n implies {
            let arm = #[trigger] after[k];
            let from = a + branches_lexis(bs, k).len();
            &&& reads(arm.0, bs[k].pattern, ts, from)
            &&& arm.1.len() == bs[k].methods.len()
            &&& entries_read(
                arm.1,
                bs[k].methods,
                bs[k].methods.len() as int,
                ts,
                from + lexis(bs[k].pattern).len() + 1,
            )
        } by {
            if k < n - 1 {
                assert(after[k] == before[k]);
            }
        }
        (e, more, es)
    }
}

proof fn call_is_read_before_colon(w: TermV, s: StateV, ts: Seq<TokV>, i: int) -> (r: (
    StateV,
    NodeV,
))
    requires
        w is Call,
        sane(w),
        written(ts, i, lexis(w)),
        s.stack.len() > 0,
        s.stack.last() is InstanceDecl,
        s.stack.len() + depth(w) <= MAX_PARSE_DEPTH,
        !is_immediate_at(ts, i + lexis(w).len()),
    ensures
        reads(r.1, w, ts, i),
        r.1.expr is Call,
        lands(s, ts, i, r.1, r.0, i + lexis(w).len()),
{
    crate::reading::call_is_read(w, s, ts, i)
}

proof fn instance_shuts(
    class: NodeV,
    arms: Seq<(NodeV, Seq<EntryV>)>,
    methods: Seq<EntryV>,
    start: SpanV,
    span: SpanV,
)
    requires
        arms.len() == 0 ==> methods.len() == 0,
    ensures
        ends_in(
            instance_with(class, arms, None, methods, start),
            DeclV::InstanceDecl {
                class_name: class,
                arms: respan_arms(complete_arms(arms, methods)),
            },
            span,
        ),
{
    reveal(ends_in);
}

proof fn instance_is_read(class: Text, arms: Seq<BranchV>, s: StateV, ts: Seq<TokV>, i: int) -> (r: (
    StateV,
    DeclV,
))
    requires
        declared_sane(DeclaredV::Instance { class, arms }),
        written(ts, i, declared_lexis(DeclaredV::Instance { class, arms })),
        declared_depth(DeclaredV::Instance { class, arms }) <= MAX_PARSE_DEPTH,
        s.stack.len() == 0,
    ensures
        declared_lands(DeclaredV::Instance { class, arms }, s, ts, i, r.0, r.1),
{
    let start = ts[i].span;
    let n = arms.len() as int;
    let rest = branches_lexis(arms, n);
    form_of("instance"@, word(class) + rest, ts, i);
    written_parts(ts, i + 2, word(class), rest);
    assert(fits(ts, i + 2 + 0, word(class)[0]));
    word_is_token(class);
    let j = i + 3 + rest.len();
    assert forall|k: int| 0 <= k < arms.len() implies branch_sane(#[trigger] arms[k]) by {}
    behind_branch(arms, 0, ts, i + 3);
    let u = instance_opens(s, ts, i);
    let f = instance_frame(start);
    assert(u.stack.last() == f);
    let w = TermV::Name(class);
    assert(lexis(w) == word(class));
    let (b, x) = term_is_read(w, u, ts, i + 2);
    lands_inside(s, f, u, ts, i + 2, x, b, i + 3);
    let (c, given, methods) = branches_are_read(arms, n, x, start, s, b, ts, i + 3);
    let done = complete_arms(given, methods);
    instance_shuts(x, given, methods, start, ts[j].span);
    let g = instance_with(x, given, None, methods, start);
    let decl = DeclV::InstanceDecl { class_name: x, arms: respan_arms(done) };
    let t = declaration_closes(s, g, decl, c, ts, j);
    let after = respan_arms(done);
    assert forall|k: int| 0 <= k < n implies {
        let arm = #[trigger] after[k];
        let from = i + 3 + branches_lexis(arms, k).len();
        &&& reads(arm.0, arms[k].pattern, ts, from)
        &&& arm.1.len() == arms[k].methods.len()
        &&& entries_read(
            arm.1,
            arms[k].methods,
            arms[k].methods.len() as int,
            ts,
            from + lexis(arms[k].pattern).len() + 1,
        )
    } by {
        let es = done[k].1;
        let from = i + 3 + branches_lexis(arms, k).len() + lexis(arms[k].pattern).len() + 1;
        let m = arms[k].methods.len() as int;
        assert(entries_read(es, arms[k].methods, m, ts, from));
        assert(entries_agree(es, respan(es), m));
        agreeing_entries_read(es, respan(es), arms[k].methods, m, ts, from);
    }
    (t, decl)
}

/// A declaration is read.
pub(crate) proof fn declaration_is_read(w: DeclaredV, s: StateV, ts: Seq<TokV>, i: int) -> (r: (
    StateV,
    DeclV,
))
    requires
        declared_sane(w),
        written(ts, i, declared_lexis(w)),
        declared_depth(w) <= MAX_PARSE_DEPTH,
        s.stack.len() == 0,
    ensures
        goes_to(s, ts, i, r.0, i + declared_lexis(w).len()),
        same_tree(
            r.0,
            s.stack,
            s.items.push(
                ItemV::Decl(
                    r.1,
                    form_span(ts[i].span, ts[i + declared_lexis(w).len() - 1].span),
                ),
            ),
            s,
        ),
        declared_reads(r.1, w, ts, i),
{
    match w {
        DeclaredV::Alias { params, body } => alias_is_read(params, body, s, ts, i),
        DeclaredV::Union { params, parts } => union_is_read(params, parts, s, ts, i),
        DeclaredV::Class { params, methods } => class_is_read(params, methods, s, ts, i),
        DeclaredV::Instance { class, arms } => instance_is_read(class, arms, s, ts, i),
        DeclaredV::Syntax { name, pattern } => syntax_is_read(name, pattern, s, ts, i),
        DeclaredV::Message { .. } => syntax_with_message_is_read(w, s, ts, i),
    }
}

proof fn headings_are_fine()
    ensures
        fine(KindV::Word("type"@)),
        fine(KindV::Word("class"@)),
        fine(KindV::Word("instance"@)),
        fine(KindV::Word("syntax-class"@)),
        fine(KindV::Word("pattern"@)),
        fine(KindV::Word("message"@)),
{
    reveal_strlit("---");
    reveal_strlit("type");
    reveal_strlit("class");
    reveal_strlit("instance");
    reveal_strlit("syntax-class");
    reveal_strlit("pattern");
    reveal_strlit("message");
    assert("---"@[0] == '-');
    assert("type"@[0] == 't');
    assert("class"@[0] == 'c');
    assert("instance"@[0] == 'i');
    assert("syntax-class"@[0] == 's');
    assert("pattern"@[0] == 'p');
    assert("message"@[0] == 'm');
}

proof fn branches_are_fine(bs: Seq<BranchV>, n: int)
    requires
        0 <= n <= bs.len(),
        forall|k: int| 0 <= k < bs.len() ==> branch_sane(#[trigger] bs[k]),
    ensures
        all_fine(branches_lexis(bs, n)),
    decreases n,
{
    if n > 0 {
        branches_are_fine(bs, n - 1);
        let b = bs[n - 1];
        assert(branch_sane(b));
        let ml = parts_lexis(b.methods, b.methods.len() as int);
        let colon = seq![KindV::Colon];
        term_is_fine(b.pattern);
        parts_are_fine(b.methods, b.methods.len() as int);
        fine_sum(lexis(b.pattern), colon);
        fine_sum(lexis(b.pattern) + colon, ml);
        fine_sum(branches_lexis(bs, n - 1), branch_lexis(b));
    }
}

proof fn params_are_fine(params: Seq<BindV>)
    requires
        names_only(params),
    ensures
        all_fine(params_lexis(params)),
{
    if params.len() > 0 {
        let_is_fine(params);
    }
}

proof fn syntax_start_is_fine(name: Text, pattern: TermV)
    requires
        plain_name(name),
        sane(pattern),
    ensures
        all_fine(syntax_start(name, pattern)),
{
    headings_are_fine();
    term_is_fine(pattern);
    fine_sum(seq![KindV::Word(name), KindV::Word("pattern"@), KindV::Colon], lexis(pattern));
}

/// Each lexeme of a declaration can be read.
pub(crate) proof fn declaration_is_fine(w: DeclaredV)
    requires
        declared_sane(w),
    ensures
        all_fine(declared_lexis(w)),
{
    headings_are_fine();
    match w {
        DeclaredV::Alias { params, body } => {
            params_are_fine(params);
            term_is_fine(body);
            fine_sum(params_lexis(params), lexis(body));
            wrapped_is_fine("type"@, params_lexis(params) + lexis(body));
        },
        DeclaredV::Union { params, parts } => {
            let pl = parts_lexis(parts, parts.len() as int);
            params_are_fine(params);
            parts_are_fine(parts, parts.len() as int);
            fine_sum(params_lexis(params), pl);
            wrapped_is_fine("type"@, params_lexis(params) + pl);
        },
        DeclaredV::Class { params, methods } => {
            let pl = parts_lexis(methods, methods.len() as int);
            let_is_fine(params);
            parts_are_fine(methods, methods.len() as int);
            fine_sum(let_lexis(params), pl);
            wrapped_is_fine("class"@, let_lexis(params) + pl);
        },
        DeclaredV::Instance { class, arms } => {
            let bl = branches_lexis(arms, arms.len() as int);
            assert forall|k: int| 0 <= k < arms.len() implies branch_sane(#[trigger] arms[k]) by {}
            branches_are_fine(arms, arms.len() as int);
            fine_sum(word(class), bl);
            wrapped_is_fine("instance"@, word(class) + bl);
        },
        DeclaredV::Syntax { name, pattern } => {
            syntax_start_is_fine(name, pattern);
            wrapped_is_fine("syntax-class"@, syntax_start(name, pattern));
        },
        DeclaredV::Message { name, pattern, prefix, delimiter, content } => {
            let tail = seq![
                KindV::Word("message"@),
                KindV::Colon,
                KindV::Str { prefix, delimiter, content },
            ];
            syntax_start_is_fine(name, pattern);
            term_is_fine(TermV::Str { prefix, delimiter, content });
            assert(well_placed(lexis(TermV::Str { prefix, delimiter, content }), 0));
            fine_sum(syntax_start(name, pattern), tail);
            wrapped_is_fine("syntax-class"@, syntax_start(name, pattern) + tail);
        },
    }
}

} // verus!
