//! Terms of the language as they are written: the lexemes of a term, and the tree that it stands
//! for.
use crate::lexer::TokV;
use crate::model::{AnnV, AnnotV, ArmV, EntryV, ExprV, NamedArgV, NodeV, ParamV, SpanV, Text};
use crate::model::DotKeyV;
use crate::scan::KindV;
use crate::spelling::{decimal_numeral, legible, plain_word};
use crate::text::int_text;
use vstd::prelude::*;

verus! {

/// What stands before a part of a dict or a call: nothing, or a key with its colon.
pub enum KeyV {
    Bare,
    Name(Text),
    Quoted { prefix: Text, delimiter: Text, content: Text },
    Number(i64),
}

pub struct PartV {
    pub key: KeyV,
    pub value: TermV,
}

/// What is bound by `[let ...]`.
pub enum BindV {
    /// `name`
    Name(Text),
    /// `name@Type`
    Noted(Text, Text),
    /// `name: literal`
    Default(Text, TermV),
    /// `...name`
    Rest(Text),
    /// `[...]`
    Group(Seq<BindV>),
}

/// An arm of a match.
#[allow(inconsistent_fields)]
pub enum ClauseV {
    /// `pattern: body`
    Plain { pattern: TermV, body: TermV },
    /// `[case [let ...] pattern body ...]`
    Case { bindings: Seq<BindV>, pattern: TermV, body: Seq<TermV> },
}

#[allow(inconsistent_fields)]
pub enum TermV {
    Int(i64),
    U64(u64),
    Float(Text),
    Str { prefix: Text, delimiter: Text, content: Text },
    Name(Text),
    /// `$name`
    Ref(Text),
    /// `...name`
    Rest(Text),
    /// `[key: value ...]`
    Dict(Seq<PartV>),
    /// `[name argument ...]`
    Call { func: Text, args: Seq<PartV> },
    /// `[call function argument ...]`
    Apply { func: Box<TermV>, args: Seq<PartV> },
    /// `[fn [let ...] body ...]`
    Fn { params: Seq<BindV>, body: Seq<TermV> },
    /// `[let ...]`
    Let(Seq<BindV>),
    /// `[quote term]`
    Quote(Box<TermV>),
    /// `[unquote term]`
    Unquote(Box<TermV>),
    /// `[unquote-splice term]`
    UnquoteSplice(Box<TermV>),
    /// `[match subject arm ...]`
    Match { subject: Box<TermV>, arms: Seq<ClauseV> },
    /// `target.name`
    Field { target: Box<TermV>, name: Text },
    /// `target.3`
    Index { target: Box<TermV>, place: i64 },
    /// `lhs | rhs`
    Pipe { lhs: Box<TermV>, rhs: Box<TermV> },
    /// `target@note`
    Noted { target: Box<TermV>, note: Box<TermV> },
    /// `[@note value]`
    Assert { note: Box<TermV>, value: Box<TermV> },
}

// What is written.

pub open spec fn word(s: Text) -> Seq<KindV> {
    seq![KindV::Word(s)]
}

/// The lexemes of a number.
pub open spec fn numeral(n: int) -> KindV {
    KindV::Number { text: int_text(n), fraction: false }
}

/// The lexemes of a key with its colon.
pub open spec fn key_lexis(key: KeyV) -> Seq<KindV> {
    match key {
        KeyV::Bare => Seq::empty(),
        KeyV::Name(s) => seq![KindV::Word(s), KindV::Colon],
        KeyV::Quoted { prefix, delimiter, content } => seq![
            KindV::Str { prefix, delimiter, content },
            KindV::Colon,
        ],
        KeyV::Number(n) => seq![numeral(n as int), KindV::Colon],
    }
}

/// The lexemes of the first `n` parts.
pub open spec fn parts_lexis(ps: Seq<PartV>, n: int) -> Seq<KindV>
    decreases ps, n,
{
    if n <= 0 || n > ps.len() {
        Seq::empty()
    } else {
        parts_lexis(ps, n - 1) + key_lexis(ps[n - 1].key) + lexis(ps[n - 1].value)
    }
}

/// The lexemes of the first `n` terms.
pub open spec fn terms_lexis(ws: Seq<TermV>, n: int) -> Seq<KindV>
    decreases ws, n,
{
    if n <= 0 || n > ws.len() {
        Seq::empty()
    } else {
        terms_lexis(ws, n - 1) + lexis(ws[n - 1])
    }
}

/// The lexemes of a binding.
pub open spec fn bind_lexis(b: BindV) -> Seq<KindV>
    decreases b, 0int,
{
    match b {
        BindV::Name(s) => word(s),
        BindV::Noted(s, t) => seq![KindV::Word(s), KindV::At, KindV::Word(t)],
        BindV::Default(s, w) => seq![KindV::Word(s), KindV::Colon] + lexis(w),
        BindV::Rest(s) => seq![KindV::Ellipsis, KindV::Word(s)],
        BindV::Group(bs) => seq![KindV::Open] + binds_lexis(bs, bs.len() as int) + seq![
            KindV::Close,
        ],
    }
}

/// The lexemes of the first `n` bindings.
pub open spec fn binds_lexis(bs: Seq<BindV>, n: int) -> Seq<KindV>
    decreases bs, n,
{
    if n <= 0 || n > bs.len() {
        Seq::empty()
    } else {
        binds_lexis(bs, n - 1) + bind_lexis(bs[n - 1])
    }
}

/// The lexemes of `[let ...]`.
pub open spec fn let_lexis(bs: Seq<BindV>) -> Seq<KindV>
    decreases bs, bs.len() + 1,
{
    seq![KindV::Open, KindV::Word("let"@)] + binds_lexis(bs, bs.len() as int) + seq![KindV::Close]
}

/// The lexemes of an arm.
pub open spec fn clause_lexis(c: ClauseV) -> Seq<KindV>
    decreases c, 0int,
{
    match c {
        ClauseV::Plain { pattern, body } => lexis(pattern) + seq![KindV::Colon] + lexis(body),
        ClauseV::Case { bindings, pattern, body } => seq![KindV::Open, KindV::Word("case"@)]
            + let_lexis(bindings) + lexis(pattern) + terms_lexis(body, body.len() as int) + seq![
            KindV::Close,
        ],
    }
}

/// The lexemes of the first `n` arms.
pub open spec fn clauses_lexis(cs: Seq<ClauseV>, n: int) -> Seq<KindV>
    decreases cs, n,
{
    if n <= 0 || n > cs.len() {
        Seq::empty()
    } else {
        clauses_lexis(cs, n - 1) + clause_lexis(cs[n - 1])
    }
}

/// The lexemes of a form with one term behind its word.
pub open spec fn form_lexis(head: Text, inner: Seq<KindV>) -> Seq<KindV> {
    seq![KindV::Open, KindV::Word(head)] + inner + seq![KindV::Close]
}

/// The lexemes of a term.
pub open spec fn lexis(w: TermV) -> Seq<KindV>
    decreases w, 0int,
{
    match w {
        TermV::Int(n) => seq![numeral(n as int)],
        TermV::U64(n) => seq![numeral(n as int)],
        TermV::Float(s) => seq![KindV::Number { text: s, fraction: true }],
        TermV::Str { prefix, delimiter, content } => seq![
            KindV::Str { prefix, delimiter, content },
        ],
        TermV::Name(s) => word(s),
        TermV::Ref(s) => seq![KindV::Ref(s)],
        TermV::Rest(s) => seq![KindV::Ellipsis, KindV::Word(s)],
        TermV::Dict(ps) => seq![KindV::Open] + parts_lexis(ps, ps.len() as int) + seq![
            KindV::Close,
        ],
        TermV::Call { func, args } => form_lexis(func, parts_lexis(args, args.len() as int)),
        TermV::Apply { func, args } => form_lexis(
            "call"@,
            lexis(*func) + parts_lexis(args, args.len() as int),
        ),
        TermV::Fn { params, body } => form_lexis(
            "fn"@,
            let_lexis(params) + terms_lexis(body, body.len() as int),
        ),
        TermV::Let(bs) => let_lexis(bs),
        TermV::Quote(w) => form_lexis("quote"@, lexis(*w)),
        TermV::Unquote(w) => form_lexis("unquote"@, lexis(*w)),
        TermV::UnquoteSplice(w) => form_lexis("unquote-splice"@, lexis(*w)),
        TermV::Match { subject, arms } => form_lexis(
            "match"@,
            lexis(*subject) + clauses_lexis(arms, arms.len() as int),
        ),
        TermV::Field { target, name } => lexis(*target) + seq![KindV::Dot, KindV::Word(name)],
        TermV::Index { target, place } => lexis(*target) + seq![KindV::Dot, numeral(place as int)],
        TermV::Pipe { lhs, rhs } => lexis(*lhs) + seq![KindV::Pipe] + lexis(*rhs),
        TermV::Noted { target, note } => lexis(*target) + seq![KindV::At] + lexis(*note),
        TermV::Assert { note, value } => seq![KindV::Open, KindV::At] + lexis(*note) + lexis(
            *value,
        ) + seq![KindV::Close],
    }
}

// What can be written.

/// A name: a word that is none of the two words that name nothing.
pub open spec fn plain_name(s: Text) -> bool {
    plain_word(s) && s != "let"@ && s != "case"@
}

/// A name that opens no special form.
pub open spec fn head_name(s: Text) -> bool {
    &&& plain_name(s)
    &&& s != "fn"@ && s != "call"@ && s != "type"@ && s != "quote"@ && s != "unquote"@
    &&& s != "unquote-splice"@ && s != "syntax-class"@ && s != "match"@ && s != "class"@
    &&& s != "instance"@ && s != "pattern"@
}

/// The text by which keys are told apart.
pub open spec fn key_label(key: KeyV) -> Option<Text> {
    match key {
        KeyV::Bare => None,
        KeyV::Name(s) => Some(s),
        KeyV::Quoted { content, .. } => Some(content),
        KeyV::Number(n) => Some(int_text(n as int)),
    }
}

/// Whether no two of the parts have the same key.
pub open spec fn labels_differ(ps: Seq<PartV>) -> bool {
    forall|i: int, j: int|
        0 <= i < j < ps.len() && key_label((#[trigger] ps[i]).key) is Some ==> key_label(
            ps[i].key,
        ) != key_label((#[trigger] ps[j]).key)
}

pub open spec fn sane_key(key: KeyV) -> bool {
    match key {
        KeyV::Bare => true,
        KeyV::Name(s) => plain_name(s),
        KeyV::Quoted { prefix, delimiter, content } => legible(
            KindV::Str { prefix, delimiter, content },
        ),
        KeyV::Number(_) => true,
    }
}

/// Whether a term stands by itself: it does not end in what could belong to a longer term.
pub open spec fn primary(w: TermV) -> bool {
    match w {
        TermV::Field { .. } | TermV::Index { .. } => false,
        TermV::Pipe { .. } | TermV::Noted { .. } => false,
        _ => true,
    }
}

/// Whether a term is one lexeme that can be a value in `[let ...]`.
pub open spec fn constant(w: TermV) -> bool {
    match w {
        TermV::Int(_) | TermV::U64(_) | TermV::Float(_) => true,
        TermV::Str { .. } | TermV::Ref(_) => true,
        _ => false,
    }
}

/// Whether a term starts with a name.
pub open spec fn named_first(w: TermV) -> bool
    decreases w,
{
    match w {
        TermV::Name(_) => true,
        TermV::Field { target, .. } => named_first(*target),
        TermV::Index { target, .. } => named_first(*target),
        TermV::Noted { target, .. } => named_first(*target),
        TermV::Pipe { lhs, .. } => named_first(*lhs),
        _ => false,
    }
}

/// Whether a term can have a note behind it: a second note, or one behind `...name`, is read as part
/// of what stands before it.
pub open spec fn notable(w: TermV) -> bool {
    match w {
        TermV::Noted { .. } | TermV::Rest(_) => false,
        TermV::Pipe { rhs, .. } => !(*rhs is Rest),
        _ => true,
    }
}

/// Whether brackets around nothing but a term only group it.
pub open spec fn grouped(w: TermV) -> bool {
    match w {
        TermV::Pipe { .. } | TermV::Assert { .. } => true,
        TermV::Noted { target, .. } => !(*target is Name || *target is Ref),
        _ => false,
    }
}

/// Whether the first `n` parts can be written.
pub open spec fn sane_parts(ps: Seq<PartV>, n: int) -> bool
    decreases ps, n,
{
    n <= 0 || n > ps.len() || (sane_parts(ps, n - 1) && sane_key(ps[n - 1].key) && sane(
        ps[n - 1].value,
    ))
}

/// Whether the first `n` terms can be written.
pub open spec fn sane_terms(ws: Seq<TermV>, n: int) -> bool
    decreases ws, n,
{
    n <= 0 || n > ws.len() || (sane_terms(ws, n - 1) && sane(ws[n - 1]))
}

/// Whether a binding can be written.
pub open spec fn sane_bind(b: BindV) -> bool
    decreases b, 0int,
{
    match b {
        BindV::Name(s) => plain_name(s),
        BindV::Noted(s, t) => plain_name(s) && plain_name(t),
        BindV::Default(s, w) => plain_name(s) && constant(w) && sane(w),
        BindV::Rest(s) => plain_name(s),
        BindV::Group(bs) => sane_binds(bs, bs.len() as int),
    }
}

/// Whether the first `n` bindings can be written.
pub open spec fn sane_binds(bs: Seq<BindV>, n: int) -> bool
    decreases bs, n,
{
    n <= 0 || n > bs.len() || (sane_binds(bs, n - 1) && sane_bind(bs[n - 1]))
}

/// Whether an arm can be written.
pub open spec fn sane_clause(c: ClauseV) -> bool
    decreases c, 0int,
{
    match c {
        ClauseV::Plain { pattern, body } => primary(pattern) && sane(pattern) && sane(body),
        ClauseV::Case { bindings, pattern, body } => {
            &&& sane_binds(bindings, bindings.len() as int)
            &&& sane(pattern)
            &&& body.len() > 0
            &&& sane_terms(body, body.len() as int)
        },
    }
}

/// Whether the first `n` arms can be written.
pub open spec fn sane_clauses(cs: Seq<ClauseV>, n: int) -> bool
    decreases cs, n,
{
    n <= 0 || n > cs.len() || (sane_clauses(cs, n - 1) && sane_clause(cs[n - 1]))
}

/// Whether every part has a name for its key, or none.
pub open spec fn only_names(ps: Seq<PartV>) -> bool {
    forall|i: int|
        0 <= i < ps.len() ==> (#[trigger] ps[i]).key is Bare || ps[i].key is Name
}

/// Whether bindings can be parameters.
pub open spec fn no_groups(bs: Seq<BindV>) -> bool {
    forall|i: int| 0 <= i < bs.len() ==> !((#[trigger] bs[i]) is Group)
}

/// Whether a term can be written.
pub open spec fn sane(w: TermV) -> bool
    decreases w, 0int,
{
    match w {
        TermV::Int(_) => true,
        TermV::U64(n) => n > i64::MAX,
        TermV::Float(s) => decimal_numeral(s),
        TermV::Str { prefix, delimiter, content } => legible(
            KindV::Str { prefix, delimiter, content },
        ),
        TermV::Name(s) => plain_name(s),
        TermV::Ref(s) => legible(KindV::Ref(s)),
        TermV::Rest(s) => plain_name(s),
        TermV::Dict(ps) => {
            &&& sane_parts(ps, ps.len() as int)
            &&& labels_differ(ps)
            &&& ps.len() > 0 && ps[0].key is Bare ==> !named_first(ps[0].value)
            &&& ps.len() == 1 && ps[0].key is Bare ==> !grouped(ps[0].value)
        },
        TermV::Call { func, args } => head_name(func) && only_names(args) && sane_parts(
            args,
            args.len() as int,
        ),
        TermV::Apply { func, args } => sane(*func) && only_names(args) && sane_parts(
            args,
            args.len() as int,
        ),
        TermV::Fn { params, body } => {
            &&& no_groups(params)
            &&& sane_binds(params, params.len() as int)
            &&& body.len() > 0
            &&& sane_terms(body, body.len() as int)
        },
        TermV::Let(bs) => sane_binds(bs, bs.len() as int),
        TermV::Quote(w) => sane(*w),
        TermV::Unquote(w) => sane(*w),
        TermV::UnquoteSplice(w) => sane(*w),
        TermV::Match { subject, arms } => sane(*subject) && arms.len() > 0 && sane_clauses(
            arms,
            arms.len() as int,
        ),
        TermV::Field { target, name } => sane(*target) && plain_name(name),
        TermV::Index { target, .. } => sane(*target),
        TermV::Pipe { lhs, rhs } => sane(*lhs) && sane(*rhs) && primary(*rhs),
        TermV::Noted { target, note } => sane(*target) && notable(*target) && (*note is Name
            || *note is Dict) && sane(*note),
        TermV::Assert { note, value } => (*note is Name || *note is Dict) && sane(*note) && sane(
            *value,
        ),
    }
}

pub open spec fn larger(a: nat, b: nat) -> nat {
    if a < b {
        b
    } else {
        a
    }
}

pub open spec fn parts_depth(ps: Seq<PartV>, n: int) -> nat
    decreases ps, n,
{
    if n <= 0 || n > ps.len() {
        0
    } else {
        larger(parts_depth(ps, n - 1), depth(ps[n - 1].value))
    }
}

pub open spec fn terms_depth(ws: Seq<TermV>, n: int) -> nat
    decreases ws, n,
{
    if n <= 0 || n > ws.len() {
        0
    } else {
        larger(terms_depth(ws, n - 1), depth(ws[n - 1]))
    }
}

pub open spec fn binds_depth(bs: Seq<BindV>, n: int) -> nat
    decreases bs, n,
{
    if n <= 0 || n > bs.len() {
        0
    } else {
        larger(
            binds_depth(bs, n - 1),
            match bs[n - 1] {
                BindV::Group(inner) => 1 + binds_depth(inner, inner.len() as int),
                _ => 0,
            },
        )
    }
}

pub open spec fn clause_depth(c: ClauseV) -> nat
    decreases c, 0int,
{
    match c {
        ClauseV::Plain { pattern, body } => larger(depth(pattern), depth(body)),
        ClauseV::Case { bindings, pattern, body } => 1 + larger(
            1 + binds_depth(bindings, bindings.len() as int),
            larger(depth(pattern), terms_depth(body, body.len() as int)),
        ),
    }
}

pub open spec fn clauses_depth(cs: Seq<ClauseV>, n: int) -> nat
    decreases cs, n,
{
    if n <= 0 || n > cs.len() {
        0
    } else {
        larger(clauses_depth(cs, n - 1), clause_depth(cs[n - 1]))
    }
}

/// How deep a term nests.
pub open spec fn depth(w: TermV) -> nat
    decreases w, 0int,
{
    match w {
        TermV::Dict(ps) => 1 + parts_depth(ps, ps.len() as int),
        TermV::Call { args, .. } => 1 + parts_depth(args, args.len() as int),
        TermV::Apply { func, args } => 1 + larger(
            depth(*func),
            parts_depth(args, args.len() as int),
        ),
        TermV::Fn { params, body } => 1 + larger(
            1 + binds_depth(params, params.len() as int),
            terms_depth(body, body.len() as int),
        ),
        TermV::Let(bs) => 1 + binds_depth(bs, bs.len() as int),
        TermV::Quote(w) => 1 + depth(*w),
        TermV::Unquote(w) => 1 + depth(*w),
        TermV::UnquoteSplice(w) => 1 + depth(*w),
        TermV::Match { subject, arms } => 1 + larger(
            depth(*subject),
            clauses_depth(arms, arms.len() as int),
        ),
        TermV::Field { target, .. } => depth(*target),
        TermV::Index { target, .. } => depth(*target),
        TermV::Pipe { lhs, rhs } => larger(depth(*lhs), 1 + depth(*rhs)),
        TermV::Noted { target, note } => larger(depth(*target), 1 + depth(*note)),
        TermV::Assert { note, value } => 1 + larger(1 + depth(*note), depth(*value)),
        _ => 0,
    }
}

// The tree.

/// Whether a region reaches from token `a` to the token before `b`.
pub open spec fn over(span: SpanV, ts: Seq<TokV>, a: int, b: int) -> bool {
    &&& span.start_line == ts[a].span.start_line
    &&& span.start_col == ts[a].span.start_col
    &&& span.end_line == ts[b - 1].span.end_line
    &&& span.end_col == ts[b - 1].span.end_col
}

/// The token at which the region of a term starts: its first, except that the region of a pipe
/// starts at the bar, and that of an assertion at its note.
pub open spec fn first_token(w: TermV, a: int) -> int
    decreases w,
{
    match w {
        TermV::Field { target, .. } => first_token(*target, a),
        TermV::Index { target, .. } => first_token(*target, a),
        TermV::Noted { target, .. } => first_token(*target, a),
        TermV::Pipe { lhs, .. } => a + lexis(*lhs).len(),
        TermV::Assert { .. } => a + 1,
        _ => a,
    }
}

/// The token behind the region of a term.
pub open spec fn behind_token(w: TermV, a: int) -> int
    decreases w,
{
    match w {
        TermV::Pipe { lhs, rhs } => behind_token(*rhs, a + lexis(*lhs).len() + 1),
        TermV::Assert { note, value } => behind_token(*value, a + 2 + lexis(*note).len()),
        _ => a + lexis(w).len(),
    }
}

/// A string literal as an expression.
pub open spec fn quoted(content: Text) -> ExprV {
    ExprV::StringLiteral { prefix: Seq::empty(), delimiter: seq!['"'], content }
}

/// Whether a node is what a key is read as: a name is read as a string.
pub open spec fn key_reads(n: NodeV, key: KeyV, ts: Seq<TokV>, a: int) -> bool {
    &&& over(n.span, ts, a, a + 1)
    &&& match key {
        KeyV::Bare => false,
        KeyV::Name(s) => n.expr == quoted(s),
        KeyV::Quoted { prefix, delimiter, content } => n.expr == (ExprV::StringLiteral {
            prefix,
            delimiter,
            content,
        }),
        KeyV::Number(k) => n.expr == ExprV::Int(k),
    }
}

/// Whether an entry of a dict is what a part is read as.
pub open spec fn entry_reads(e: EntryV, p: PartV, ts: Seq<TokV>, a: int) -> bool
    decreases p, 0int,
{
    &&& match p.key {
        KeyV::Bare => e.key is None,
        _ => e.key is Some && key_reads(e.key->0, p.key, ts, a),
    }
    &&& reads(e.value, p.value, ts, a + key_lexis(p.key).len())
}

/// Whether the first `n` entries of a dict are what the first `n` parts are read as.
pub open spec fn entries_read(es: Seq<EntryV>, ps: Seq<PartV>, n: int, ts: Seq<TokV>, a: int) -> bool
    decreases ps, n,
{
    n <= 0 || n > ps.len() || {
        &&& entries_read(es, ps, n - 1, ts, a)
        &&& entry_reads(es[n - 1], ps[n - 1], ts, a + parts_lexis(ps, n - 1).len())
    }
}

/// How many of the first `n` parts have no key.
pub open spec fn bare_count(ps: Seq<PartV>, n: int) -> int
    decreases n,
{
    if n <= 0 || n > ps.len() {
        0
    } else if ps[n - 1].key is Bare {
        bare_count(ps, n - 1) + 1
    } else {
        bare_count(ps, n - 1)
    }
}

/// Whether the arguments of a call are what parts are read as: those without a key in their order,
/// and those with a key in theirs.
pub open spec fn args_read(
    args: Seq<NodeV>,
    named: Seq<NamedArgV>,
    ps: Seq<PartV>,
    n: int,
    ts: Seq<TokV>,
    a: int,
) -> bool
    decreases ps, n,
{
    n <= 0 || n > ps.len() || {
        let p = ps[n - 1];
        let at = a + parts_lexis(ps, n - 1).len() + key_lexis(p.key).len();
        let k = bare_count(ps, n - 1);
        &&& args_read(args, named, ps, n - 1, ts, a)
        &&& match p.key {
            KeyV::Bare => reads(args[k], p.value, ts, at),
            KeyV::Name(s) => {
                let arg = named[n - 1 - k];
                &&& arg.name == s
                &&& arg.annotation is None
                &&& arg.span == arg.value.span
                &&& reads(arg.value, p.value, ts, at)
            },
            _ => false,
        }
    }
}

/// Whether the first `n` nodes are what the first `n` terms are read as.
pub open spec fn terms_read(ns: Seq<NodeV>, ws: Seq<TermV>, n: int, ts: Seq<TokV>, a: int) -> bool
    decreases ws, n,
{
    n <= 0 || n > ws.len() || {
        &&& terms_read(ns, ws, n - 1, ts, a)
        &&& reads(ns[n - 1], ws[n - 1], ts, a + terms_lexis(ws, n - 1).len())
    }
}

/// The annotation that a name stands for.
pub open spec fn simple_note(s: Text) -> AnnV {
    if s == "Expr"@ {
        AnnV::Quote
    } else {
        AnnV::Simple(s)
    }
}

/// Whether an annotation is what a term behind `@` is read as; `a` is the place of the `@`.
pub open spec fn note_reads(n: AnnotV, note: TermV, ts: Seq<TokV>, a: int) -> bool
    decreases note, 1int,
{
    &&& over(n.span, ts, a, a + 1 + lexis(note).len())
    &&& match note {
        TermV::Name(s) => n.ann == simple_note(s),
        TermV::Dict(ps) => n.ann matches AnnV::PropertyDict(es) && es.len() == ps.len()
            && entries_read(es, ps, ps.len() as int, ts, a + 2),
        _ => false,
    }
}

/// Whether a node is what a binding is read as.
pub open spec fn bind_reads(n: NodeV, b: BindV, ts: Seq<TokV>, a: int) -> bool
    decreases b, 0int,
{
    &&& over(n.span, ts, a, a + bind_lexis(b).len())
    &&& match b {
        BindV::Name(s) => n.expr == (ExprV::VarRef { name: s, escaped: false, annotation: None }),
        BindV::Noted(s, t) => n.expr matches ExprV::VarRef {
            name,
            escaped,
            annotation: Some(ann),
        } && name == s && !escaped && ann.ann == simple_note(t) && over(ann.span, ts, a + 1, a + 3),
        BindV::Default(s, w) => n.expr matches ExprV::VarRef {
            name,
            escaped,
            annotation: Some(ann),
        } && name == s && !escaped && (ann.ann matches AnnV::PropertyDict(es) && es.len() == 1
            && es[0].key is Some && es[0].key->0.expr == quoted("default"@) && reads(
            es[0].value,
            w,
            ts,
            a + 2,
        )),
        BindV::Rest(s) => n.expr == ExprV::Placeholder(Some(s), None),
        BindV::Group(bs) => n.expr matches ExprV::LetDecl { bindings } && bindings.len()
            == bs.len() && binds_read(bindings, bs, bs.len() as int, ts, a + 1),
    }
}

/// Whether the first `n` nodes are what the first `n` bindings are read as.
pub open spec fn binds_read(ns: Seq<NodeV>, bs: Seq<BindV>, n: int, ts: Seq<TokV>, a: int) -> bool
    decreases bs, n,
{
    n <= 0 || n > bs.len() || {
        &&& binds_read(ns, bs, n - 1, ts, a)
        &&& bind_reads(ns[n - 1], bs[n - 1], ts, a + binds_lexis(bs, n - 1).len())
    }
}

/// Whether a node is what `[let ...]` is read as.
pub open spec fn let_reads(n: NodeV, bs: Seq<BindV>, ts: Seq<TokV>, a: int) -> bool
    decreases bs, bs.len() + 1,
{
    &&& over(n.span, ts, a, a + let_lexis(bs).len())
    &&& n.expr matches ExprV::LetDecl { bindings } && bindings.len() == bs.len() && binds_read(
        bindings,
        bs,
        bs.len() as int,
        ts,
        a + 2,
    )
}

/// Whether a parameter is what a binding is read as.
pub open spec fn param_reads(p: ParamV, b: BindV, ts: Seq<TokV>, a: int) -> bool
    decreases b, 0int,
{
    &&& over(p.span, ts, a, a + bind_lexis(b).len())
    &&& match b {
        BindV::Name(s) => p.name == s && !p.variadic && p.annotation is None,
        BindV::Noted(s, t) => p.name == s && !p.variadic && (p.annotation matches Some(ann)
            && ann.ann == simple_note(t)),
        BindV::Default(s, w) => p.name == s && !p.variadic && (p.annotation matches Some(ann) && (
        ann.ann matches AnnV::PropertyDict(es) && es.len() == 1 && es[0].key is Some
            && es[0].key->0.expr == quoted("default"@) && reads(es[0].value, w, ts, a + 2))),
        BindV::Rest(s) => p.name == s && p.variadic && p.annotation is None,
        BindV::Group(_) => false,
    }
}

/// Whether the first `n` parameters are what the first `n` bindings are read as.
pub open spec fn params_read(ps: Seq<ParamV>, bs: Seq<BindV>, n: int, ts: Seq<TokV>, a: int) -> bool
    decreases bs, n,
{
    n <= 0 || n > bs.len() || {
        &&& params_read(ps, bs, n - 1, ts, a)
        &&& param_reads(ps[n - 1], bs[n - 1], ts, a + binds_lexis(bs, n - 1).len())
    }
}

/// Whether an arm is what a clause is read as.
pub open spec fn clause_reads(arm: ArmV, c: ClauseV, ts: Seq<TokV>, a: int) -> bool
    decreases c, 0int,
{
    &&& arm.guard is None
    &&& match c {
        ClauseV::Plain { pattern, body } => {
            &&& arm.let_bindings is None
            &&& reads(arm.pattern, pattern, ts, a)
            &&& arm.body.len() == 1
            &&& reads(arm.body[0], body, ts, a + lexis(pattern).len() + 1)
        },
        ClauseV::Case { bindings, pattern, body } => {
            let at = a + 2 + let_lexis(bindings).len();
            &&& arm.let_bindings matches Some(l) && let_reads(l, bindings, ts, a + 2)
            &&& reads(arm.pattern, pattern, ts, at)
            &&& arm.body.len() == body.len()
            &&& terms_read(arm.body, body, body.len() as int, ts, at + lexis(pattern).len())
        },
    }
}

/// Whether the first `n` arms are what the first `n` clauses are read as.
pub open spec fn clauses_read(arms: Seq<ArmV>, cs: Seq<ClauseV>, n: int, ts: Seq<TokV>, a: int) -> bool
    decreases cs, n,
{
    n <= 0 || n > cs.len() || {
        &&& clauses_read(arms, cs, n - 1, ts, a)
        &&& clause_reads(arms[n - 1], cs[n - 1], ts, a + clauses_lexis(cs, n - 1).len())
    }
}

/// Whether a node is what a term is read as that starts at token `a`.
pub open spec fn reads(n: NodeV, w: TermV, ts: Seq<TokV>, a: int) -> bool
    decreases w, 0int,
{
    &&& over(n.span, ts, first_token(w, a), behind_token(w, a))
    &&& match w {
        TermV::Int(k) => n.expr == ExprV::Int(k),
        TermV::U64(k) => n.expr == ExprV::U64(k),
        TermV::Float(s) => n.expr == ExprV::Float(s),
        TermV::Str { prefix, delimiter, content } => n.expr == (ExprV::StringLiteral {
            prefix,
            delimiter,
            content,
        }),
        TermV::Name(s) => n.expr == (ExprV::VarRef { name: s, escaped: false, annotation: None }),
        TermV::Ref(s) => n.expr == (ExprV::VarRef { name: s, escaped: true, annotation: None }),
        TermV::Rest(s) => n.expr == ExprV::Placeholder(Some(s), None),
        TermV::Dict(ps) => n.expr matches ExprV::Dict(es) && es.len() == ps.len() && entries_read(
            es,
            ps,
            ps.len() as int,
            ts,
            a + 1,
        ),
        TermV::Call { func, args } => n.expr matches ExprV::Call {
            func: f,
            args: given,
            named_args,
            implied,
            pipe_span,
        } && {
            &&& implied
            &&& pipe_span is None
            &&& f.expr == (ExprV::VarRef { name: func, escaped: false, annotation: None })
            &&& over(f.span, ts, a + 1, a + 2)
            &&& given.len() == bare_count(args, args.len() as int)
            &&& named_args.len() == args.len() - given.len()
            &&& args_read(given, named_args, args, args.len() as int, ts, a + 2)
        },
        TermV::Apply { func, args } => n.expr matches ExprV::Call {
            func: f,
            args: given,
            named_args,
            implied,
            pipe_span,
        } && {
            &&& !implied
            &&& pipe_span is None
            &&& reads(*f, *func, ts, a + 2)
            &&& given.len() == bare_count(args, args.len() as int)
            &&& named_args.len() == args.len() - given.len()
            &&& args_read(
                given,
                named_args,
                args,
                args.len() as int,
                ts,
                a + 2 + lexis(*func).len(),
            )
        },
        TermV::Fn { params, body } => n.expr matches ExprV::Fn {
            return_ann,
            params: ps,
            body: b,
            desugared,
        } && {
            let at = a + 2 + let_lexis(params).len();
            &&& return_ann is None
            &&& !desugared
            &&& ps.len() == params.len()
            &&& params_read(ps, params, params.len() as int, ts, a + 4)
            &&& if body.len() == 1 {
                reads(*b, body[0], ts, at)
            } else {
                b.expr matches ExprV::Sequential(ns) && ns.len() == body.len() && terms_read(
                    ns,
                    body,
                    body.len() as int,
                    ts,
                    at,
                )
            }
        },
        TermV::Let(bs) => let_reads(n, bs, ts, a),
        TermV::Quote(inner) => n.expr matches ExprV::Quote(m) && reads(*m, *inner, ts, a + 2),
        TermV::Unquote(inner) => n.expr matches ExprV::Unquote(m) && reads(*m, *inner, ts, a + 2),
        TermV::UnquoteSplice(inner) => n.expr matches ExprV::UnquoteSplice(m) && reads(
            *m,
            *inner,
            ts,
            a + 2,
        ),
        TermV::Match { subject, arms } => n.expr matches ExprV::Match { scrutinee, arms: given }
            && {
            &&& reads(*scrutinee, *subject, ts, a + 2)
            &&& given.len() == arms.len()
            &&& clauses_read(given, arms, arms.len() as int, ts, a + 2 + lexis(*subject).len())
        },
        TermV::Field { target, name } => n.expr matches ExprV::Field { expr: Some(t), field }
            && field == DotKeyV::Ident(name) && reads(*t, *target, ts, a),
        TermV::Index { target, place } => n.expr matches ExprV::Field { expr: Some(t), field }
            && field == DotKeyV::Int(place) && reads(*t, *target, ts, a),
        TermV::Pipe { lhs, rhs } => n.expr matches ExprV::Pipe { lhs: l, rhs: r, pipe_span } && {
            let bar = a + lexis(*lhs).len();
            &&& reads(*l, *lhs, ts, a)
            &&& reads(*r, *rhs, ts, bar + 1)
            &&& pipe_span == Some(ts[bar].span)
        },
        TermV::Noted { target, note } => match *target {
            TermV::Name(s) => n.expr matches ExprV::VarRef {
                name,
                escaped,
                annotation: Some(ann),
            } && name == s && !escaped && note_reads(*ann, *note, ts, a + 1),
            TermV::Ref(s) => n.expr matches ExprV::VarRef {
                name,
                escaped,
                annotation: Some(ann),
            } && name == s && escaped && note_reads(*ann, *note, ts, a + 1),
            _ => n.expr matches ExprV::TypeAssert { annotation, expr } && reads(
                *expr,
                *target,
                ts,
                a,
            ) && note_reads(*annotation, *note, ts, a + lexis(*target).len()),
        },
        TermV::Assert { note, value } => n.expr matches ExprV::TypeAssert { annotation, expr }
            && reads(*expr, *value, ts, a + 2 + lexis(*note).len()) && note_reads(
            *annotation,
            *note,
            ts,
            a + 1,
        ),
    }
}

} // verus!
