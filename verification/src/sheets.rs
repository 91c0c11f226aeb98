//! What is written in the compact syntax is what is parsed: the source that is put together from
//! the lexemes of compact terms parses to the trees of these terms.
use crate::lexer::{ends_value, immediate, numeral_reads_back};
use crate::model::{AnnV, Text};
use crate::open::MAX_PARSE_DEPTH;
use crate::parser2::{
    form_opened, form_region, form_tree, form_with, form_with_key, keyed_args, located_pairs,
    next_piece, outcome, parsed2, piece_step, plain_args, pushed_value, ArgV, BuilderV, FormV,
    StepV,
};
use crate::pieces::{pieces_from, pieces_of, piece_of, region_of, FailureV, PieceAtV, PieceV};
use crate::scan::{KindV, LexemeV};
use crate::spelling::{
    apart, decimal_numeral, legible, mark_end, mark_start, marks_read, plain_word, readable,
    spelled, spelled_lexemes_are_read, MarkV,
};
use crate::terms::{larger, numeral};
use crate::tree::{BarePairV, LeafV, NamedV, NoteV, PairV, Position, Region, TreeV};
use vstd::prelude::*;

verus! {

/// A part of a dict or a call: a value, with a name before it or none.
pub struct CompactPartV {
    pub key: Option<Text>,
    pub value: CompactV,
}

/// A term of the compact syntax.
pub enum CompactV {
    Int(i64),
    Float(Text),
    /// `true` or `false`
    Bool(bool),
    Word(Text),
    Quoted { prefix: Text, delimiter: Text, content: Text },
    /// `$name`
    Ref(Text),
    /// `[key: value ...]`
    Dict(Seq<CompactPartV>),
    /// `[call function argument ...]`
    Call { func: Box<CompactV>, args: Seq<CompactPartV> },
    /// `[fn body]`
    Fn(Box<CompactV>),
    /// `[type term]`
    Type(Box<CompactV>),
    /// `[@Note value]`
    Assert { note: Text, value: Box<CompactV> },
}

pub open spec fn truth(b: bool) -> Text {
    if b {
        "true"@
    } else {
        "false"@
    }
}

pub open spec fn part_lexis(key: Option<Text>) -> Seq<KindV> {
    match key {
        Some(s) => seq![KindV::Word(s), KindV::Colon],
        None => Seq::empty(),
    }
}

/// The lexemes of the first `n` parts.
pub open spec fn compact_parts(ps: Seq<CompactPartV>, n: int) -> Seq<KindV>
    decreases ps, n,
{
    if n <= 0 || n > ps.len() {
        Seq::empty()
    } else {
        compact_parts(ps, n - 1) + part_lexis(ps[n - 1].key) + compact_lexis(ps[n - 1].value)
    }
}

pub open spec fn wrapped(first: Seq<KindV>, inner: Seq<KindV>) -> Seq<KindV> {
    first + inner + seq![KindV::Close]
}

/// The lexemes of a term.
pub open spec fn compact_lexis(w: CompactV) -> Seq<KindV>
    decreases w, 0int,
{
    match w {
        CompactV::Int(n) => seq![numeral(n as int)],
        CompactV::Float(s) => seq![KindV::Number { text: s, fraction: true }],
        CompactV::Bool(b) => seq![KindV::Word(truth(b))],
        CompactV::Word(s) => seq![KindV::Word(s)],
        CompactV::Quoted { prefix, delimiter, content } => seq![
            KindV::Str { prefix, delimiter, content },
        ],
        CompactV::Ref(s) => seq![KindV::Ref(s)],
        CompactV::Dict(ps) => wrapped(seq![KindV::Open], compact_parts(ps, ps.len() as int)),
        CompactV::Call { func, args } => wrapped(
            seq![KindV::Open, KindV::Word("call"@)],
            compact_lexis(*func) + compact_parts(args, args.len() as int),
        ),
        CompactV::Fn(body) => wrapped(
            seq![KindV::Open, KindV::Word("fn"@)],
            compact_lexis(*body),
        ),
        CompactV::Type(t) => wrapped(
            seq![KindV::Open, KindV::Word("type"@)],
            compact_lexis(*t),
        ),
        CompactV::Assert { note, value } => wrapped(
            seq![KindV::Open, KindV::At, KindV::Word(note)],
            compact_lexis(*value),
        ),
    }
}

/// A word that is neither of the two truth values.
pub open spec fn bare_word(s: Text) -> bool {
    plain_word(s) && s != "true"@ && s != "false"@
}

/// Whether the first `n` parts can be written.
pub open spec fn compact_parts_sane(ps: Seq<CompactPartV>, n: int) -> bool
    decreases ps, n,
{
    n <= 0 || n > ps.len() || {
        &&& compact_parts_sane(ps, n - 1)
        &&& ps[n - 1].key matches Some(s) ==> bare_word(s)
        &&& compact_sane(ps[n - 1].value)
    }
}

/// Whether a term can be written.
pub open spec fn compact_sane(w: CompactV) -> bool
    decreases w, 0int,
{
    match w {
        CompactV::Int(_) => true,
        CompactV::Float(s) => decimal_numeral(s),
        CompactV::Bool(_) => true,
        CompactV::Word(s) => bare_word(s),
        CompactV::Quoted { prefix, delimiter, content } => legible(
            KindV::Str { prefix, delimiter, content },
        ),
        CompactV::Ref(s) => legible(KindV::Ref(s)),
        CompactV::Dict(ps) => {
            &&& compact_parts_sane(ps, ps.len() as int)
            &&& ps.len() > 0 && ps[0].key is None ==> !(ps[0].value matches CompactV::Word(s) && (s
                == "call"@ || s == "fn"@ || s == "type"@))
        },
        CompactV::Call { func, args } => compact_sane(*func) && compact_parts_sane(
            args,
            args.len() as int,
        ),
        CompactV::Fn(body) => compact_sane(*body),
        CompactV::Type(t) => compact_sane(*t),
        CompactV::Assert { note, value } => bare_word(note) && compact_sane(*value),
    }
}

pub open spec fn compact_parts_depth(ps: Seq<CompactPartV>, n: int) -> nat
    decreases ps, n,
{
    if n <= 0 || n > ps.len() {
        0
    } else {
        larger(compact_parts_depth(ps, n - 1), compact_depth(ps[n - 1].value))
    }
}

/// How deep a term nests.
pub open spec fn compact_depth(w: CompactV) -> nat
    decreases w, 0int,
{
    match w {
        CompactV::Dict(ps) => 1 + compact_parts_depth(ps, ps.len() as int),
        CompactV::Call { func, args } => 1 + larger(
            compact_depth(*func),
            compact_parts_depth(args, args.len() as int),
        ),
        CompactV::Fn(body) => 1 + compact_depth(*body),
        CompactV::Type(t) => 1 + compact_depth(*t),
        CompactV::Assert { value, .. } => 1 + compact_depth(*value),
        _ => 0,
    }
}

/// The region of a form from piece `a` to the piece before `b`.
pub open spec fn compact_region(ts: Seq<PieceAtV>, a: int, b: int) -> Region {
    Region {
        start: Position { offset: ts[a].span.start.offset, line: 1, column: 1 },
        end: ts[b - 1].span.end,
    }
}

/// Whether a key is read: a name is a string.
pub open spec fn compact_key_reads(k: LeafV, s: Text, span: Region) -> bool {
    k.expr == TreeV::Str(s) && k.span == span
}

/// Whether an entry of a dict is what a part is read as.
pub open spec fn pair_reads(e: PairV, p: CompactPartV, ts: Seq<PieceAtV>, a: int) -> bool
    decreases p, 0int,
{
    &&& match p.key {
        Some(s) => {
            &&& e.key is Some
            &&& compact_key_reads(e.key->0, s, ts[a].span)
            &&& e.span.start == ts[a].span.start
        },
        None => e.key is None && e.span.start == e.value.span.start,
    }
    &&& e.span.end == e.value.span.end
    &&& compact_reads(e.value, p.value, ts, a + part_lexis(p.key).len())
}

/// Whether the first `n` entries are what the first `n` parts are read as.
pub open spec fn pairs_read(
    es: Seq<PairV>,
    ps: Seq<CompactPartV>,
    n: int,
    ts: Seq<PieceAtV>,
    a: int,
) -> bool
    decreases ps, n,
{
    n <= 0 || n > ps.len() || {
        &&& pairs_read(es, ps, n - 1, ts, a)
        &&& pair_reads(es[n - 1], ps[n - 1], ts, a + compact_parts(ps, n - 1).len())
    }
}

/// How many of the first `n` parts have no name.
pub open spec fn nameless(ps: Seq<CompactPartV>, n: int) -> int
    decreases n,
{
    if n <= 0 || n > ps.len() {
        0
    } else if ps[n - 1].key is None {
        nameless(ps, n - 1) + 1
    } else {
        nameless(ps, n - 1)
    }
}

/// Whether the arguments of a call are what parts are read as: those without a name in their order,
/// and those with a name in theirs.
pub open spec fn compact_args_read(
    args: Seq<LeafV>,
    named: Seq<NamedV>,
    ps: Seq<CompactPartV>,
    n: int,
    ts: Seq<PieceAtV>,
    a: int,
) -> bool
    decreases ps, n,
{
    n <= 0 || n > ps.len() || {
        let p = ps[n - 1];
        let at = a + compact_parts(ps, n - 1).len() + part_lexis(p.key).len();
        let k = nameless(ps, n - 1);
        &&& compact_args_read(args, named, ps, n - 1, ts, a)
        &&& match p.key {
            None => compact_reads(args[k], p.value, ts, at),
            Some(s) => {
                let arg = named[n - 1 - k];
                &&& arg.name == s
                &&& arg.span == arg.value.span
                &&& compact_reads(arg.value, p.value, ts, at)
            },
        }
    }
}

/// Whether a tree is what a term is read as that starts at piece `a`.
pub open spec fn compact_reads(leaf: LeafV, w: CompactV, ts: Seq<PieceAtV>, a: int) -> bool
    decreases w, 0int,
{
    let form = leaf.span == compact_region(ts, a, a + compact_lexis(w).len());
    match w {
        CompactV::Int(n) => leaf.expr == TreeV::Int(n) && leaf.span == ts[a].span,
        CompactV::Float(s) => leaf.expr == TreeV::Float(s) && leaf.span == ts[a].span,
        CompactV::Bool(b) => leaf.expr == TreeV::Bool(b) && leaf.span == ts[a].span,
        CompactV::Word(s) => leaf.expr == TreeV::Str(s) && leaf.span == ts[a].span,
        CompactV::Quoted { content, .. } => leaf.expr == TreeV::Str(content) && leaf.span
            == ts[a].span,
        CompactV::Ref(s) => leaf.expr == TreeV::VarRef(s) && leaf.span == ts[a].span,
        CompactV::Dict(ps) => form && (leaf.expr matches TreeV::Dict(es) && es.len() == ps.len()
            && pairs_read(es, ps, ps.len() as int, ts, a + 1)),
        CompactV::Call { func, args } => form && (leaf.expr matches TreeV::Call {
            func: f,
            args: given,
            named_args,
        } && {
            &&& compact_reads(*f, *func, ts, a + 2)
            &&& given.len() == nameless(args, args.len() as int)
            &&& named_args.len() == args.len() - given.len()
            &&& compact_args_read(
                given,
                named_args,
                args,
                args.len() as int,
                ts,
                a + 2 + compact_lexis(*func).len(),
            )
        }),
        CompactV::Fn(body) => form && (leaf.expr matches TreeV::Fn {
            return_ann,
            params,
            body: b,
            desugared,
        } && return_ann is None && params.len() == 0 && !desugared && compact_reads(
            *b,
            *body,
            ts,
            a + 2,
        )),
        CompactV::Type(t) => form && (leaf.expr matches TreeV::TypeAlias(b) && compact_reads(
            *b,
            *t,
            ts,
            a + 2,
        )),
        CompactV::Assert { note, value } => form && (leaf.expr matches TreeV::TypeAssert {
            annotation,
            expr,
        } && annotation.ann == AnnV::Simple(note) && annotation.span == ts[a + 2].span
            && compact_reads(*expr, *value, ts, a + 3)),
    }
}

// Reading.

/// Whether a piece is what a lexeme is read as, where no bracket stands right behind a value.
spec fn piece_fits(t: PieceV, k: KindV) -> bool {
    if k is At {
        t is At || t is ImmediateAt
    } else if k is Open {
        t is OpenBracket
    } else {
        piece_of(k, false) == Ok::<PieceV, Text>(t)
    }
}

/// Whether lexemes stand among pieces.
spec fn stands_at(ts: Seq<PieceAtV>, i: int, ks: Seq<KindV>) -> bool {
    &&& 0 <= i
    &&& i + ks.len() <= ts.len()
    &&& forall|k: int| 0 <= k < ks.len() ==> piece_fits(ts[i + k].tok, #[trigger] ks[k])
}

spec fn no_idle(ts: Seq<PieceAtV>) -> bool {
    forall|k: int|
        0 <= k < ts.len() ==> !((#[trigger] ts[k]).tok is Newline || ts[k].tok is Semicolon
            || ts[k].tok is Comment)
}

proof fn stands_parts(ts: Seq<PieceAtV>, i: int, a: Seq<KindV>, b: Seq<KindV>)
    requires
        stands_at(ts, i, a + b),
    ensures
        stands_at(ts, i, a),
        stands_at(ts, i + a.len(), b),
{
    let all = a + b;
    assert forall|k: int| 0 <= k < a.len() implies piece_fits(ts[i + k].tok, #[trigger] a[k]) by {
        assert(piece_fits(ts[i + k].tok, all[k]));
    }
    assert forall|k: int| 0 <= k < b.len() implies piece_fits(
        ts[i + a.len() + k].tok,
        #[trigger] b[k],
    ) by {
        assert(piece_fits(ts[i + (a.len() + k)].tok, all[a.len() + k]));
    }
}

spec fn leads(s: BuilderV, ts: Seq<PieceAtV>, i: int, t: BuilderV, j: int, size: nat) -> bool {
    outcome(s, ts, i, size) == outcome(t, ts, j, size)
}

proof fn step_leads(s: BuilderV, ts: Seq<PieceAtV>, i: int, t: BuilderV, j: int, size: nat)
    requires
        0 <= i < ts.len(),
        piece_step(s, ts, i) == StepV::Next(t, j),
    ensures
        leads(s, ts, i, t, j, size),
{
}

/// What is read up to piece `j` puts a tree where it can be put.
#[verifier::opaque]
spec fn puts(s: BuilderV, ts: Seq<PieceAtV>, i: int, leaf: LeafV, j: int, size: nat) -> bool {
    pushed_value(s, leaf) matches Ok(t) ==> leads(s, ts, i, t, j, size)
}

proof fn words_differ()
    ensures
        "true"@ != "false"@,
        "call"@ != "fn"@ && "call"@ != "type"@ && "fn"@ != "type"@,
        bare_word("call"@),
        bare_word("fn"@),
        bare_word("type"@),
        plain_word("true"@),
        plain_word("false"@),
{
    reveal_strlit("true");
    reveal_strlit("false");
    reveal_strlit("call");
    reveal_strlit("fn");
    reveal_strlit("type");
    reveal_strlit("---");
    assert("true"@.len() == 4 && "call"@.len() == 4 && "type"@.len() == 4);
    assert("false"@.len() == 5 && "fn"@.len() == 2 && "---"@.len() == 3);
    assert("true"@[0] == 't' && "call"@[0] == 'c' && "type"@[0] == 't');
    assert("true"@[1] == 'r' && "type"@[1] == 'y');
    assert("false"@[0] == 'f' && "fn"@[0] == 'f');
}

spec fn compact_atom(w: CompactV) -> bool {
    match w {
        CompactV::Int(_) | CompactV::Float(_) | CompactV::Bool(_) => true,
        CompactV::Word(_) | CompactV::Quoted { .. } | CompactV::Ref(_) => true,
        _ => false,
    }
}

spec fn colon_at(ts: Seq<PieceAtV>, j: int) -> bool {
    0 <= j < ts.len() && ts[j].tok is Colon
}

proof fn compact_atom_is_read(w: CompactV, s: BuilderV, ts: Seq<PieceAtV>, i: int, size: nat) -> (r:
    LeafV)
    requires
        compact_atom(w),
        compact_sane(w),
        no_idle(ts),
        stands_at(ts, i, compact_lexis(w)),
        !colon_at(ts, i + 1),
    ensures
        compact_reads(r, w, ts, i),
        puts(s, ts, i, r, i + 1, size),
{
    reveal(puts);
    words_differ();
    assert(piece_fits(ts[i + 0].tok, compact_lexis(w)[0]));
    assert(next_piece(ts, i + 1) == i + 1);
    let expr = match w {
        CompactV::Int(n) => {
            numeral_reads_back(n);
            TreeV::Int(n)
        },
        CompactV::Float(s) => TreeV::Float(s),
        CompactV::Bool(b) => TreeV::Bool(b),
        CompactV::Word(s) => TreeV::Str(s),
        CompactV::Quoted { content, .. } => TreeV::Str(content),
        CompactV::Ref(s) => TreeV::VarRef(s),
        _ => TreeV::Bool(true),
    };
    let leaf = LeafV { expr, span: ts[i].span };
    match pushed_value(s, leaf) {
        Ok(t) => {
            assert(piece_step(s, ts, i) == StepV::Next(t, i + 1));
            step_leads(s, ts, i, t, i + 1, size);
        },
        Err(_) => {},
    }
    leaf
}

/// A term starts with a word where it is one, and with neither a colon nor a closing bracket.
proof fn compact_first(w: CompactV, ts: Seq<PieceAtV>, i: int)
    requires
        compact_sane(w),
        stands_at(ts, i, compact_lexis(w)),
    ensures
        i < ts.len(),
        compact_lexis(w).len() > 0,
        !(ts[i].tok is Colon || ts[i].tok is CloseBracket || ts[i].tok is At || ts[i].tok
            is ImmediateAt),
        ts[i].tok matches PieceV::BareWord(s) ==> w == CompactV::Word(s),
{
    words_differ();
    assert(compact_lexis(w).len() > 0);
    assert(piece_fits(ts[i + 0].tok, compact_lexis(w)[0]));
    match w {
        CompactV::Int(n) => {
            numeral_reads_back(n);
        },
        CompactV::Dict(_) | CompactV::Call { .. } | CompactV::Fn(_) => {
            assert(compact_lexis(w)[0] is Open);
        },
        CompactV::Type(_) | CompactV::Assert { .. } => {
            assert(compact_lexis(w)[0] is Open);
        },
        _ => {},
    }
}

/// The parts of a form.
proof fn wrapped_of(first: Seq<KindV>, inner: Seq<KindV>, ts: Seq<PieceAtV>, i: int)
    requires
        stands_at(ts, i, wrapped(first, inner)),
    ensures
        stands_at(ts, i, first),
        stands_at(ts, i + first.len(), inner),
        i + first.len() + inner.len() < ts.len(),
        ts[i + first.len() + inner.len()].tok is CloseBracket,
        wrapped(first, inner).len() == first.len() + inner.len() + 1,
{
    stands_parts(ts, i, first + inner, seq![KindV::Close]);
    stands_parts(ts, i, first, inner);
    let e = i + first.len() + inner.len();
    assert(piece_fits(ts[e + 0].tok, seq![KindV::Close][0]));
}

/// A form that is closed is put where it stands.
proof fn form_shuts(
    s: BuilderV,
    f: FormV,
    tree: TreeV,
    start: usize,
    ts: Seq<PieceAtV>,
    i: int,
    j: int,
    size: nat,
) -> (leaf: LeafV)
    requires
        0 <= j < ts.len(),
        ts[j].tok is CloseBracket,
        leads(s, ts, i, BuilderV { stack: s.stack.push(f), ..s }, j, size),
        form_tree(f, ts[j].span) == Ok::<(TreeV, usize), FailureV>((tree, start)),
    ensures
        leaf == (LeafV { expr: tree, span: form_region(start, ts[j].span) }),
        puts(s, ts, i, leaf, j + 1, size),
{
    reveal(puts);
    let inner = BuilderV { stack: s.stack.push(f), ..s };
    let leaf = LeafV { expr: tree, span: form_region(start, ts[j].span) };
    assert(inner.stack.drop_last() =~= s.stack);
    match pushed_value(s, leaf) {
        Ok(t) => {
            assert(piece_step(inner, ts, j) == StepV::Next(t, j + 1));
            step_leads(inner, ts, j, t, j + 1, size);
        },
        Err(_) => {},
    }
    leaf
}

/// A bracket opens a form.
proof fn form_opens(s: BuilderV, ts: Seq<PieceAtV>, i: int, f: FormV, next: int, size: nat)
    requires
        0 <= i < ts.len(),
        ts[i].tok is OpenBracket,
        s.stack.len() < MAX_PARSE_DEPTH,
        form_opened(ts, i) == (f, next),
    ensures
        leads(s, ts, i, BuilderV { stack: s.stack.push(f), ..s }, next, size),
{
    let t = BuilderV { stack: s.stack.push(f), ..s };
    assert(piece_step(s, ts, i) == StepV::Next(t, next));
    step_leads(s, ts, i, t, next, size);
}

/// A tree is put into an open form.
proof fn puts_inside(
    s: BuilderV,
    f: FormV,
    g: FormV,
    ts: Seq<PieceAtV>,
    i: int,
    leaf: LeafV,
    j: int,
    size: nat,
)
    requires
        puts(BuilderV { stack: s.stack.push(f), ..s }, ts, i, leaf, j, size),
        form_with(f, leaf) == Ok::<FormV, FailureV>(g),
    ensures
        leads(
            BuilderV { stack: s.stack.push(f), ..s },
            ts,
            i,
            BuilderV { stack: s.stack.push(g), ..s },
            j,
            size,
        ),
{
    reveal(puts);
    let inner = BuilderV { stack: s.stack.push(f), ..s };
    assert(inner.stack.drop_last() =~= s.stack);
}

/// A name with its colon waits for its value.
proof fn name_waits(
    s: BuilderV,
    f: FormV,
    g: FormV,
    name: Text,
    ts: Seq<PieceAtV>,
    i: int,
    size: nat,
)
    requires
        no_idle(ts),
        bare_word(name),
        stands_at(ts, i, part_lexis(Some(name))),
        form_with_key(f, name, ts[i].span) == Some(g),
    ensures
        leads(
            BuilderV { stack: s.stack.push(f), ..s },
            ts,
            i,
            BuilderV { stack: s.stack.push(g), ..s },
            i + 2,
            size,
        ),
{
    let ks = part_lexis(Some(name));
    assert(piece_fits(ts[i + 0].tok, ks[0]));
    assert(piece_fits(ts[i + 1].tok, ks[1]));
    assert(next_piece(ts, i + 1) == i + 1);
    let a = BuilderV { stack: s.stack.push(f), ..s };
    let b = BuilderV { stack: s.stack.push(g), ..s };
    assert(a.stack.drop_last() =~= s.stack);
    assert(b.stack.drop_last() =~= s.stack);
    assert(piece_step(a, ts, i) == StepV::Next(b, i + 1));
    step_leads(a, ts, i, b, i + 1, size);
    assert(piece_step(b, ts, i + 1) == StepV::Next(b, i + 2));
    step_leads(b, ts, i + 1, b, i + 2, size);
}

proof fn compact_part_of(ps: Seq<CompactPartV>, n: int, k: int, ts: Seq<PieceAtV>, a: int)
    requires
        0 <= k < n <= ps.len(),
        compact_parts_sane(ps, n),
        stands_at(ts, a, compact_parts(ps, n)),
    ensures
        ps[k].key matches Some(s) ==> bare_word(s),
        compact_sane(ps[k].value),
        compact_depth(ps[k].value) <= compact_parts_depth(ps, n),
        ({
            let at = a + compact_parts(ps, k).len();
            &&& stands_at(ts, at, part_lexis(ps[k].key))
            &&& stands_at(ts, at + part_lexis(ps[k].key).len(), compact_lexis(ps[k].value))
            &&& at + part_lexis(ps[k].key).len() + compact_lexis(ps[k].value).len() == a
                + compact_parts(ps, k + 1).len()
        }),
    decreases n,
{
    let before = compact_parts(ps, n - 1);
    let key = part_lexis(ps[n - 1].key);
    let value = compact_lexis(ps[n - 1].value);
    stands_parts(ts, a, before + key, value);
    stands_parts(ts, a, before, key);
    if k < n - 1 {
        compact_part_of(ps, n - 1, k, ts, a);
    }
}

/// What stands behind the first `n` parts.
proof fn behind_compact(ps: Seq<CompactPartV>, n: int, ts: Seq<PieceAtV>, a: int)
    requires
        0 <= n <= ps.len(),
        compact_parts_sane(ps, ps.len() as int),
        stands_at(ts, a, compact_parts(ps, ps.len() as int)),
        ({
            let e = a + compact_parts(ps, ps.len() as int).len();
            e < ts.len() && ts[e].tok is CloseBracket
        }),
    ensures
        !colon_at(ts, a + compact_parts(ps, n).len()),
{
    if n < ps.len() {
        compact_part_of(ps, ps.len() as int, n, ts, a);
        let at = a + compact_parts(ps, n).len();
        match ps[n].key {
            None => {
                compact_first(ps[n].value, ts, at);
            },
            Some(s) => {
                assert(piece_fits(ts[at + 0].tok, part_lexis(ps[n].key)[0]));
            },
        }
    }
}

proof fn agreeing_pairs_read(
    es: Seq<PairV>,
    fs: Seq<PairV>,
    ps: Seq<CompactPartV>,
    n: int,
    ts: Seq<PieceAtV>,
    a: int,
)
    requires
        0 <= n <= ps.len(),
        forall|k: int| 0 <= k < n ==> #[trigger] es[k] == fs[k],
        pairs_read(es, ps, n, ts, a),
    ensures
        pairs_read(fs, ps, n, ts, a),
    decreases n,
{
    if n > 0 {
        agreeing_pairs_read(es, fs, ps, n - 1, ts, a);
        assert(es[n - 1] == fs[n - 1]);
    }
}

proof fn pairs_are_read(
    ps: Seq<CompactPartV>,
    n: int,
    start: usize,
    s: BuilderV,
    ts: Seq<PieceAtV>,
    a: int,
    size: nat,
) -> (r: Seq<BarePairV>)
    requires
        0 <= n <= ps.len(),
        compact_parts_sane(ps, ps.len() as int),
        no_idle(ts),
        stands_at(ts, a, compact_parts(ps, ps.len() as int)),
        ({
            let e = a + compact_parts(ps, ps.len() as int).len();
            e < ts.len() && ts[e].tok is CloseBracket
        }),
        s.stack.len() + 1 + compact_parts_depth(ps, ps.len() as int) <= MAX_PARSE_DEPTH,
    ensures
        r.len() == n,
        pairs_read(located_pairs(r), ps, n, ts, a),
        leads(
            BuilderV {
                stack: s.stack.push(
                    FormV::Dict { entries: Seq::empty(), pending_key: None, start },
                ),
                ..s
            },
            ts,
            a,
            BuilderV {
                stack: s.stack.push(FormV::Dict { entries: r, pending_key: None, start }),
                ..s
            },
            a + compact_parts(ps, n).len(),
            size,
        ),
    decreases ps, n,
{
    if n == 0 {
        Seq::empty()
    } else {
        let es = pairs_are_read(ps, n - 1, start, s, ts, a, size);
        let p = ps[n - 1];
        let at = a + compact_parts(ps, n - 1).len();
        compact_part_of(ps, ps.len() as int, n - 1, ts, a);
        behind_compact(ps, n, ts, a);
        let f = FormV::Dict { entries: es, pending_key: None, start };
        let (g, from) = match p.key {
            None => (f, at),
            Some(name) => {
                let key = LeafV { expr: TreeV::Str(name), span: ts[at].span };
                let g = FormV::Dict { entries: es, pending_key: Some(key), start };
                name_waits(s, f, g, name, ts, at, size);
                (g, at + 2)
            },
        };
        let inner = BuilderV { stack: s.stack.push(g), ..s };
        let leaf = compact_is_read(p.value, inner, ts, from, size);
        let bare = BarePairV { key: g->Dict_pending_key, value: leaf };
        let r = es.push(bare);
        let h = FormV::Dict { entries: r, pending_key: None, start };
        puts_inside(s, g, h, ts, from, leaf, from + compact_lexis(p.value).len(), size);
        agreeing_pairs_read(located_pairs(es), located_pairs(r), ps, n - 1, ts, a);
        assert(pair_reads(located_pairs(r)[n - 1], p, ts, at));
        r
    }
}

proof fn nameless_bounds(ps: Seq<CompactPartV>, n: int)
    requires
        0 <= n <= ps.len(),
    ensures
        0 <= nameless(ps, n) <= n,
    decreases n,
{
    if n > 0 {
        nameless_bounds(ps, n - 1);
    }
}

spec fn grows<T>(long: Seq<T>, short: Seq<T>) -> bool {
    short.len() <= long.len() && forall|k: int|
        0 <= k < short.len() ==> long[k] == #[trigger] short[k]
}

proof fn longer_compact_args(
    args: Seq<LeafV>,
    named: Seq<NamedV>,
    more: Seq<LeafV>,
    more_named: Seq<NamedV>,
    ps: Seq<CompactPartV>,
    n: int,
    ts: Seq<PieceAtV>,
    a: int,
)
    requires
        0 <= n <= ps.len(),
        compact_args_read(args, named, ps, n, ts, a),
        grows(more, args),
        grows(more_named, named),
        nameless(ps, n) <= args.len(),
        n - nameless(ps, n) <= named.len(),
    ensures
        compact_args_read(more, more_named, ps, n, ts, a),
    decreases n,
{
    if n > 0 {
        nameless_bounds(ps, n - 1);
        longer_compact_args(args, named, more, more_named, ps, n - 1, ts, a);
        let k = nameless(ps, n - 1);
        match ps[n - 1].key {
            None => {
                assert(more[k] == args[k]);
            },
            Some(_) => {
                assert(more_named[n - 1 - k] == named[n - 1 - k]);
            },
        }
    }
}

proof fn compact_args_are_read(
    ps: Seq<CompactPartV>,
    n: int,
    callee: LeafV,
    start: usize,
    s: BuilderV,
    ts: Seq<PieceAtV>,
    a: int,
    size: nat,
) -> (r: Seq<ArgV>)
    requires
        0 <= n <= ps.len(),
        compact_parts_sane(ps, ps.len() as int),
        no_idle(ts),
        stands_at(ts, a, compact_parts(ps, ps.len() as int)),
        ({
            let e = a + compact_parts(ps, ps.len() as int).len();
            e < ts.len() && ts[e].tok is CloseBracket
        }),
        s.stack.len() + 1 + compact_parts_depth(ps, ps.len() as int) <= MAX_PARSE_DEPTH,
    ensures
        plain_args(r).len() == nameless(ps, n),
        keyed_args(r).len() == n - nameless(ps, n),
        compact_args_read(plain_args(r), keyed_args(r), ps, n, ts, a),
        leads(
            BuilderV {
                stack: s.stack.push(
                    FormV::Call {
                        args: seq![ArgV::Positional(callee)],
                        pending_key: None,
                        start,
                    },
                ),
                ..s
            },
            ts,
            a,
            BuilderV {
                stack: s.stack.push(
                    FormV::Call {
                        args: seq![ArgV::Positional(callee)] + r,
                        pending_key: None,
                        start,
                    },
                ),
                ..s
            },
            a + compact_parts(ps, n).len(),
            size,
        ),
    decreases ps, n,
{
    let first = seq![ArgV::Positional(callee)];
    if n == 0 {
        assert(first + Seq::<ArgV>::empty() =~= first);
        Seq::empty()
    } else {
        let before = compact_args_are_read(ps, n - 1, callee, start, s, ts, a, size);
        let p = ps[n - 1];
        let at = a + compact_parts(ps, n - 1).len();
        nameless_bounds(ps, n - 1);
        compact_part_of(ps, ps.len() as int, n - 1, ts, a);
        behind_compact(ps, n, ts, a);
        let f = FormV::Call { args: first + before, pending_key: None, start };
        let (g, from) = match p.key {
            None => (f, at),
            Some(name) => {
                let g = FormV::Call {
                    args: first + before,
                    pending_key: Some((name, ts[at].span)),
                    start,
                };
                name_waits(s, f, g, name, ts, at, size);
                (g, at + 2)
            },
        };
        let inner = BuilderV { stack: s.stack.push(g), ..s };
        let leaf = compact_is_read(p.value, inner, ts, from, size);
        let arg = match p.key {
            None => ArgV::Positional(leaf),
            Some(name) => ArgV::Named(name, leaf),
        };
        let r = before.push(arg);
        assert((first + before).push(arg) =~= first + r);
        let h = FormV::Call { args: first + r, pending_key: None, start };
        puts_inside(s, g, h, ts, from, leaf, from + compact_lexis(p.value).len(), size);
        assert(r.drop_last() =~= before);
        longer_compact_args(
            plain_args(before),
            keyed_args(before),
            plain_args(r),
            keyed_args(r),
            ps,
            n - 1,
            ts,
            a,
        );
        r
    }
}

/// Whether a term stands where it is read as that term.
spec fn compact_hosted(w: CompactV, s: BuilderV, ts: Seq<PieceAtV>, i: int) -> bool {
    &&& compact_sane(w)
    &&& no_idle(ts)
    &&& stands_at(ts, i, compact_lexis(w))
    &&& s.stack.len() + compact_depth(w) <= MAX_PARSE_DEPTH
    &&& !colon_at(ts, i + compact_lexis(w).len())
}

proof fn compact_dict_is_read(w: CompactV, s: BuilderV, ts: Seq<PieceAtV>, i: int, size: nat) -> (r:
    LeafV)
    requires
        w is Dict,
        compact_hosted(w, s, ts, i),
    ensures
        compact_reads(r, w, ts, i),
        puts(s, ts, i, r, i + compact_lexis(w).len(), size),
    decreases w, 1int,
{
    match w {
        CompactV::Dict(ps) => {
            let n = ps.len() as int;
            let inner = compact_parts(ps, n);
            let open = seq![KindV::Open];
            wrapped_of(open, inner, ts, i);
            assert(piece_fits(ts[i + 0].tok, open[0]));
            let start = ts[i].span.start.offset;
            let f = FormV::Dict { entries: Seq::empty(), pending_key: None, start };
            assert(next_piece(ts, i + 1) == i + 1);
            assert(next_piece(ts, i + 2) == i + 2);
            assert(form_opened(ts, i) == (f, i + 1)) by {
                if n > 0 {
                    compact_part_of(ps, n, 0, ts, i + 1);
                    match ps[0].key {
                        None => {
                            compact_first(ps[0].value, ts, i + 1);
                        },
                        Some(name) => {
                            let ks = part_lexis(ps[0].key);
                            assert(piece_fits(ts[i + 1 + 0].tok, ks[0]));
                            assert(piece_fits(ts[i + 1 + 1].tok, ks[1]));
                        },
                    }
                }
            }
            form_opens(s, ts, i, f, i + 1, size);
            let es = pairs_are_read(ps, n, start, s, ts, i + 1, size);
            let g = FormV::Dict { entries: es, pending_key: None, start };
            let j = i + 1 + inner.len();
            form_shuts(s, g, TreeV::Dict(located_pairs(es)), start, ts, i, j, size)
        },
        _ => arbitrary(),
    }
}

proof fn compact_call_is_read(w: CompactV, s: BuilderV, ts: Seq<PieceAtV>, i: int, size: nat) -> (r:
    LeafV)
    requires
        w is Call,
        compact_hosted(w, s, ts, i),
    ensures
        compact_reads(r, w, ts, i),
        puts(s, ts, i, r, i + compact_lexis(w).len(), size),
    decreases w, 1int,
{
    match w {
        CompactV::Call { func, args } => {
            words_differ();
            let n = args.len() as int;
            let fl = compact_lexis(*func);
            let rest = compact_parts(args, n);
            let head = seq![KindV::Open, KindV::Word("call"@)];
            wrapped_of(head, fl + rest, ts, i);
            stands_parts(ts, i + 2, fl, rest);
            assert(piece_fits(ts[i + 0].tok, head[0]));
            assert(piece_fits(ts[i + 1].tok, head[1]));
            let start = ts[i].span.start.offset;
            let f = FormV::Call { args: Seq::empty(), pending_key: None, start };
            compact_first(*func, ts, i + 2);
            assert(next_piece(ts, i + 1) == i + 1);
            assert(next_piece(ts, i + 2) == i + 2);
            assert(form_opened(ts, i) == (f, i + 2));
            form_opens(s, ts, i, f, i + 2, size);
            let a = i + 2 + fl.len();
            behind_compact(args, 0, ts, a);
            let inner = BuilderV { stack: s.stack.push(f), ..s };
            let callee = compact_is_read(*func, inner, ts, i + 2, size);
            let first = seq![ArgV::Positional(callee)];
            assert(Seq::<ArgV>::empty().push(ArgV::Positional(callee)) =~= first);
            let g = FormV::Call { args: first, pending_key: None, start };
            puts_inside(s, f, g, ts, i + 2, callee, a, size);
            let given = compact_args_are_read(args, n, callee, start, s, ts, a, size);
            let h = FormV::Call { args: first + given, pending_key: None, start };
            let j = a + rest.len();
            assert((first + given).skip(1) =~= given);
            assert((first + given)[0] == ArgV::Positional(callee));
            let tree = TreeV::Call {
                func: Box::new(callee),
                args: plain_args(given),
                named_args: keyed_args(given),
            };
            form_shuts(s, h, tree, start, ts, i, j, size)
        },
        _ => arbitrary(),
    }
}

proof fn compact_single_is_read(w: CompactV, s: BuilderV, ts: Seq<PieceAtV>, i: int, size: nat) -> (r:
    LeafV)
    requires
        w is Fn || w is Type,
        compact_hosted(w, s, ts, i),
    ensures
        compact_reads(r, w, ts, i),
        puts(s, ts, i, r, i + compact_lexis(w).len(), size),
    decreases w, 1int,
{
    words_differ();
    let (inner, word) = match w {
        CompactV::Fn(body) => (*body, "fn"@),
        CompactV::Type(t) => (*t, "type"@),
        _ => arbitrary(),
    };
    let il = compact_lexis(inner);
    let head = seq![KindV::Open, KindV::Word(word)];
    assert(compact_lexis(w) == wrapped(head, il));
    wrapped_of(head, il, ts, i);
    assert(piece_fits(ts[i + 0].tok, head[0]));
    assert(piece_fits(ts[i + 1].tok, head[1]));
    let start = ts[i].span.start.offset;
    let f = match w {
        CompactV::Fn(_) => FormV::Fn { body: None, return_ann: None, start },
        _ => FormV::TypeAlias { type_expr: None, start },
    };
    compact_first(inner, ts, i + 2);
    assert(next_piece(ts, i + 1) == i + 1);
    assert(next_piece(ts, i + 2) == i + 2);
    assert(form_opened(ts, i) == (f, i + 2));
    form_opens(s, ts, i, f, i + 2, size);
    let j = i + 2 + il.len();
    let leaf = compact_is_read(inner, BuilderV { stack: s.stack.push(f), ..s }, ts, i + 2, size);
    let (g, tree) = match w {
        CompactV::Fn(_) => (
            FormV::Fn { body: Some(leaf), return_ann: None, start },
            TreeV::Fn {
                return_ann: None,
                params: Seq::empty(),
                body: Box::new(leaf),
                desugared: false,
            },
        ),
        _ => (
            FormV::TypeAlias { type_expr: Some(leaf), start },
            TreeV::TypeAlias(Box::new(leaf)),
        ),
    };
    puts_inside(s, f, g, ts, i + 2, leaf, j, size);
    form_shuts(s, g, tree, start, ts, i, j, size)
}

proof fn compact_assert_is_read(w: CompactV, s: BuilderV, ts: Seq<PieceAtV>, i: int, size: nat) -> (r:
    LeafV)
    requires
        w is Assert,
        compact_hosted(w, s, ts, i),
    ensures
        compact_reads(r, w, ts, i),
        puts(s, ts, i, r, i + compact_lexis(w).len(), size),
    decreases w, 1int,
{
    match w {
        CompactV::Assert { note, value } => {
            let vl = compact_lexis(*value);
            let head = seq![KindV::Open, KindV::At, KindV::Word(note)];
            wrapped_of(head, vl, ts, i);
            assert(piece_fits(ts[i + 0].tok, head[0]));
            assert(piece_fits(ts[i + 1].tok, head[1]));
            assert(piece_fits(ts[i + 2].tok, head[2]));
            let start = ts[i].span.start.offset;
            let f = FormV::TypeAssert { annotation: None, expr: None, start };
            assert(next_piece(ts, i + 1) == i + 1);
            assert(next_piece(ts, i + 2) == i + 2);
            assert(form_opened(ts, i) == (f, i + 1));
            form_opens(s, ts, i, f, i + 1, size);
            let ann = NoteV { ann: AnnV::Simple(note), span: ts[i + 2].span };
            let g = FormV::TypeAssert { annotation: Some(ann), expr: None, start };
            let a = BuilderV { stack: s.stack.push(f), ..s };
            let b = BuilderV { stack: s.stack.push(g), ..s };
            assert(a.stack.drop_last() =~= s.stack);
            assert(piece_step(a, ts, i + 1) == StepV::Next(b, i + 3));
            step_leads(a, ts, i + 1, b, i + 3, size);
            let leaf = compact_is_read(*value, b, ts, i + 3, size);
            let h = FormV::TypeAssert { annotation: Some(ann), expr: Some(leaf), start };
            let j = i + 3 + vl.len();
            puts_inside(s, g, h, ts, i + 3, leaf, j, size);
            let tree = TreeV::TypeAssert { annotation: ann, expr: Box::new(leaf) };
            form_shuts(s, h, tree, start, ts, i, j, size)
        },
        _ => arbitrary(),
    }
}

/// A term is read.
proof fn compact_is_read(w: CompactV, s: BuilderV, ts: Seq<PieceAtV>, i: int, size: nat) -> (r:
    LeafV)
    requires
        compact_hosted(w, s, ts, i),
    ensures
        compact_reads(r, w, ts, i),
        puts(s, ts, i, r, i + compact_lexis(w).len(), size),
    decreases w, 2int,
{
    match w {
        CompactV::Dict(_) => compact_dict_is_read(w, s, ts, i, size),
        CompactV::Call { .. } => compact_call_is_read(w, s, ts, i, size),
        CompactV::Fn(_) | CompactV::Type(_) => compact_single_is_read(w, s, ts, i, size),
        CompactV::Assert { .. } => compact_assert_is_read(w, s, ts, i, size),
        _ => compact_atom_is_read(w, s, ts, i, size),
    }
}

// Sources.

/// An expression of a source: a term, and the keys with which it is accessed.
pub struct AccessV {
    pub base: CompactV,
    pub keys: Seq<CompactV>,
}

/// A lexeme, and whether it is a bracket that has to stand right behind what is accessed.
pub struct SignV {
    pub kind: KindV,
    pub joined: bool,
}

pub open spec fn plain_signs(ks: Seq<KindV>) -> Seq<SignV> {
    Seq::new(ks.len(), |k: int| SignV { kind: ks[k], joined: false })
}

/// The lexemes of a term that is accessed with its first `n` keys.
pub open spec fn access_signs(w: AccessV, n: int) -> Seq<SignV>
    decreases n,
{
    if n <= 0 || n > w.keys.len() {
        plain_signs(compact_lexis(w.base))
    } else {
        access_signs(w, n - 1) + seq![SignV { kind: KindV::Open, joined: true }] + plain_signs(
            compact_lexis(w.keys[n - 1]) + seq![KindV::Close],
        )
    }
}

/// The lexemes of the first `n` expressions.
pub open spec fn sheet_signs(ws: Seq<AccessV>, n: int) -> Seq<SignV>
    decreases n,
{
    if n <= 0 || n > ws.len() {
        Seq::empty()
    } else {
        sheet_signs(ws, n - 1) + access_signs(ws[n - 1], ws[n - 1].keys.len() as int)
    }
}

/// Whether an expression can be written.
pub open spec fn access_sane(w: AccessV) -> bool {
    &&& compact_sane(w.base)
    &&& compact_depth(w.base) <= MAX_PARSE_DEPTH
    &&& forall|k: int|
        0 <= k < w.keys.len() ==> compact_sane(#[trigger] w.keys[k]) && compact_depth(w.keys[k])
            < MAX_PARSE_DEPTH
}

/// Whether a tree is what a term that is accessed with its first `n` keys is read as.
pub open spec fn access_reads(leaf: LeafV, w: AccessV, n: int, ts: Seq<PieceAtV>, a: int) -> bool
    decreases n,
{
    if n <= 0 || n > w.keys.len() {
        compact_reads(leaf, w.base, ts, a)
    } else {
        let at = a + access_signs(w, n - 1).len();
        &&& leaf.span == compact_region(ts, at, at + compact_lexis(w.keys[n - 1]).len() + 2)
        &&& leaf.expr matches TreeV::BracketAccess { expr, key } && access_reads(
            *expr,
            w,
            n - 1,
            ts,
            a,
        ) && compact_reads(*key, w.keys[n - 1], ts, at + 1)
    }
}

/// Whether trees are what expressions are read as.
pub open spec fn sheet_reads(leaves: Seq<LeafV>, ws: Seq<AccessV>, n: int, ts: Seq<PieceAtV>) -> bool {
    forall|k: int|
        0 <= k < n ==> access_reads(
            #[trigger] leaves[k],
            ws[k],
            ws[k].keys.len() as int,
            ts,
            sheet_signs(ws, k).len() as int,
        )
}

spec fn sign_fits(t: PieceV, sign: SignV) -> bool {
    if sign.joined {
        t is BracketAccess
    } else {
        piece_fits(t, sign.kind)
    }
}

spec fn signs_at(ts: Seq<PieceAtV>, i: int, ss: Seq<SignV>) -> bool {
    &&& 0 <= i
    &&& i + ss.len() <= ts.len()
    &&& forall|k: int| 0 <= k < ss.len() ==> sign_fits(ts[i + k].tok, #[trigger] ss[k])
}

proof fn signs_parts(ts: Seq<PieceAtV>, i: int, a: Seq<SignV>, b: Seq<SignV>)
    requires
        signs_at(ts, i, a + b),
    ensures
        signs_at(ts, i, a),
        signs_at(ts, i + a.len(), b),
{
    let all = a + b;
    assert forall|k: int| 0 <= k < a.len() implies sign_fits(ts[i + k].tok, #[trigger] a[k]) by {
        assert(sign_fits(ts[i + k].tok, all[k]));
    }
    assert forall|k: int| 0 <= k < b.len() implies sign_fits(
        ts[i + a.len() + k].tok,
        #[trigger] b[k],
    ) by {
        assert(sign_fits(ts[i + (a.len() + k)].tok, all[a.len() + k]));
    }
}

proof fn plain_stands(ts: Seq<PieceAtV>, i: int, ks: Seq<KindV>)
    requires
        signs_at(ts, i, plain_signs(ks)),
    ensures
        stands_at(ts, i, ks),
{
    assert forall|k: int| 0 <= k < ks.len() implies piece_fits(ts[i + k].tok, #[trigger] ks[k]) by {
        assert(sign_fits(ts[i + k].tok, plain_signs(ks)[k]));
    }
}

spec fn top(es: Seq<LeafV>) -> BuilderV {
    BuilderV { stack: Seq::empty(), expressions: es }
}

proof fn put_on_top(es: Seq<LeafV>, ts: Seq<PieceAtV>, i: int, leaf: LeafV, j: int, size: nat)
    requires
        puts(top(es), ts, i, leaf, j, size),
    ensures
        leads(top(es), ts, i, top(es.push(leaf)), j, size),
{
    reveal(puts);
}

proof fn signs_prefix(w: AccessV, n: int, ts: Seq<PieceAtV>, a: int)
    requires
        0 <= n <= w.keys.len(),
        signs_at(ts, a, access_signs(w, w.keys.len() as int)),
    ensures
        signs_at(ts, a, access_signs(w, n)),
    decreases w.keys.len() - n,
{
    if n < w.keys.len() {
        signs_prefix(w, n + 1, ts, a);
        let open = seq![SignV { kind: KindV::Open, joined: true }];
        let rest = plain_signs(compact_lexis(w.keys[n]) + seq![KindV::Close]);
        signs_parts(ts, a, access_signs(w, n) + open, rest);
        signs_parts(ts, a, access_signs(w, n), open);
    }
}

proof fn access_is_read(
    w: AccessV,
    n: int,
    es: Seq<LeafV>,
    ts: Seq<PieceAtV>,
    a: int,
    size: nat,
) -> (leaf: LeafV)
    requires
        0 <= n <= w.keys.len(),
        access_sane(w),
        no_idle(ts),
        signs_at(ts, a, access_signs(w, w.keys.len() as int)),
        !colon_at(ts, a + access_signs(w, w.keys.len() as int).len()),
    ensures
        access_reads(leaf, w, n, ts, a),
        leads(top(es), ts, a, top(es.push(leaf)), a + access_signs(w, n).len(), size),
    decreases n,
{
    signs_prefix(w, n, ts, a);
    if n == 0 {
        plain_stands(ts, a, compact_lexis(w.base));
        if w.keys.len() > 0 {
            signs_prefix(w, 1, ts, a);
            let open = seq![SignV { kind: KindV::Open, joined: true }];
            let rest = plain_signs(compact_lexis(w.keys[0]) + seq![KindV::Close]);
            signs_parts(ts, a, access_signs(w, 0) + open, rest);
            signs_parts(ts, a, access_signs(w, 0), open);
            assert(sign_fits(ts[a + access_signs(w, 0).len() + 0].tok, open[0]));
        }
        let leaf = compact_is_read(w.base, top(es), ts, a, size);
        put_on_top(es, ts, a, leaf, a + compact_lexis(w.base).len(), size);
        leaf
    } else {
        let x = access_is_read(w, n - 1, es, ts, a, size);
        let at = a + access_signs(w, n - 1).len();
        let key = w.keys[n - 1];
        let kl = compact_lexis(key);
        let open = seq![SignV { kind: KindV::Open, joined: true }];
        let rest = plain_signs(kl + seq![KindV::Close]);
        signs_parts(ts, a, access_signs(w, n - 1) + open, rest);
        signs_parts(ts, a, access_signs(w, n - 1), open);
        assert(sign_fits(ts[at + 0].tok, open[0]));
        plain_stands(ts, at + 1, kl + seq![KindV::Close]);
        stands_parts(ts, at + 1, kl, seq![KindV::Close]);
        let j = at + 1 + kl.len();
        assert(piece_fits(ts[j + 0].tok, seq![KindV::Close][0]));
        let start = ts[at].span.start.offset;
        let f = FormV::BracketAccessKey { target: x, key_expr: None, start };
        let b = BuilderV { stack: top(es).stack.push(f), ..top(es) };
        assert(es.push(x).drop_last() =~= es);
        assert(piece_step(top(es.push(x)), ts, at) == StepV::Next(b, at + 1));
        step_leads(top(es.push(x)), ts, at, b, at + 1, size);
        assert(compact_sane(key));
        let y = compact_is_read(key, b, ts, at + 1, size);
        let g = FormV::BracketAccessKey { target: x, key_expr: Some(y), start };
        puts_inside(top(es), f, g, ts, at + 1, y, j, size);
        let tree = TreeV::BracketAccess { expr: Box::new(x), key: Box::new(y) };
        let leaf = access_shuts(es, x, g, tree, start, ts, at, j, size);
        leaf
    }
}

proof fn access_shuts(
    es: Seq<LeafV>,
    x: LeafV,
    g: FormV,
    tree: TreeV,
    start: usize,
    ts: Seq<PieceAtV>,
    i: int,
    j: int,
    size: nat,
) -> (leaf: LeafV)
    requires
        0 <= j < ts.len(),
        ts[j].tok is CloseBracket,
        leads(
            top(es.push(x)),
            ts,
            i,
            BuilderV { stack: top(es).stack.push(g), ..top(es) },
            j,
            size,
        ),
        form_tree(g, ts[j].span) == Ok::<(TreeV, usize), FailureV>((tree, start)),
    ensures
        leaf == (LeafV { expr: tree, span: form_region(start, ts[j].span) }),
        leads(top(es.push(x)), ts, i, top(es.push(leaf)), j + 1, size),
{
    let inner = BuilderV { stack: top(es).stack.push(g), ..top(es) };
    let leaf = LeafV { expr: tree, span: form_region(start, ts[j].span) };
    assert(inner.stack.drop_last() =~= Seq::empty());
    assert(piece_step(inner, ts, j) == StepV::Next(top(es.push(leaf)), j + 1));
    step_leads(inner, ts, j, top(es.push(leaf)), j + 1, size);
    leaf
}

proof fn sheet_prefix(ws: Seq<AccessV>, n: int, ts: Seq<PieceAtV>)
    requires
        0 <= n <= ws.len(),
        signs_at(ts, 0, sheet_signs(ws, ws.len() as int)),
    ensures
        signs_at(ts, 0, sheet_signs(ws, n)),
        n > 0 ==> signs_at(
            ts,
            sheet_signs(ws, n - 1).len() as int,
            access_signs(ws[n - 1], ws[n - 1].keys.len() as int),
        ),
    decreases ws.len() - n,
{
    if n < ws.len() {
        sheet_prefix(ws, n + 1, ts);
        signs_parts(
            ts,
            0,
            sheet_signs(ws, n),
            access_signs(ws[n], ws[n].keys.len() as int),
        );
    }
    if n > 0 {
        signs_parts(
            ts,
            0,
            sheet_signs(ws, n - 1),
            access_signs(ws[n - 1], ws[n - 1].keys.len() as int),
        );
    }
}

proof fn no_colon_behind(ws: Seq<AccessV>, n: int, ts: Seq<PieceAtV>)
    requires
        0 <= n <= ws.len(),
        forall|k: int| 0 <= k < ws.len() ==> access_sane(#[trigger] ws[k]),
        signs_at(ts, 0, sheet_signs(ws, ws.len() as int)),
        ts.len() == sheet_signs(ws, ws.len() as int).len(),
    ensures
        !colon_at(ts, sheet_signs(ws, n).len() as int),
{
    if n < ws.len() {
        let at = sheet_signs(ws, n).len() as int;
        sheet_prefix(ws, n + 1, ts);
        signs_prefix(ws[n], 0, ts, at);
        plain_stands(ts, at, compact_lexis(ws[n].base));
        assert(access_sane(ws[n]));
        compact_first(ws[n].base, ts, at);
    }
}

proof fn sheet_is_read(ws: Seq<AccessV>, n: int, ts: Seq<PieceAtV>, size: nat) -> (es: Seq<LeafV>)
    requires
        0 <= n <= ws.len(),
        forall|k: int| 0 <= k < ws.len() ==> access_sane(#[trigger] ws[k]),
        no_idle(ts),
        signs_at(ts, 0, sheet_signs(ws, ws.len() as int)),
        ts.len() == sheet_signs(ws, ws.len() as int).len(),
    ensures
        es.len() == n,
        sheet_reads(es, ws, n, ts),
        leads(top(Seq::empty()), ts, 0, top(es), sheet_signs(ws, n).len() as int, size),
    decreases n,
{
    if n == 0 {
        Seq::empty()
    } else {
        let es = sheet_is_read(ws, n - 1, ts, size);
        let at = sheet_signs(ws, n - 1).len() as int;
        sheet_prefix(ws, n, ts);
        no_colon_behind(ws, n, ts);
        assert(access_sane(ws[n - 1]));
        let leaf = access_is_read(
            ws[n - 1],
            ws[n - 1].keys.len() as int,
            es,
            ts,
            at,
            size,
        );
        let after = es.push(leaf);
        assert forall|k: int| 0 <= k < n implies access_reads(
            #[trigger] after[k],
            ws[k],
            ws[k].keys.len() as int,
            ts,
            sheet_signs(ws, k).len() as int,
        ) by {
            if k < n - 1 {
                assert(after[k] == es[k]);
            }
        }
        after
    }
}

/// Whether a lexeme can stand in a term.
spec fn compact_fine(k: KindV) -> bool {
    &&& legible(k)
    &&& piece_of(k, false) is Ok
    &&& !(k is Comment || k is Newline || k is Semicolon || k is Dot)
}

spec fn all_compact_fine(ks: Seq<KindV>) -> bool {
    forall|i: int| 0 <= i < ks.len() ==> compact_fine(#[trigger] ks[i])
}

proof fn compact_fine_sum(a: Seq<KindV>, b: Seq<KindV>)
    requires
        all_compact_fine(a),
        all_compact_fine(b),
    ensures
        all_compact_fine(a + b),
{
    let c = a + b;
    assert forall|i: int| 0 <= i < c.len() implies compact_fine(#[trigger] c[i]) by {
        if i < a.len() {
            assert(compact_fine(a[i]));
        } else {
            assert(compact_fine(b[i - a.len()]));
        }
    }
}

proof fn compact_parts_fine(ps: Seq<CompactPartV>, n: int)
    requires
        0 <= n <= ps.len(),
        compact_parts_sane(ps, n),
    ensures
        all_compact_fine(compact_parts(ps, n)),
    decreases ps, n,
{
    if n > 0 {
        compact_parts_fine(ps, n - 1);
        compact_term_fine(ps[n - 1].value);
        compact_fine_sum(compact_parts(ps, n - 1), part_lexis(ps[n - 1].key));
        compact_fine_sum(
            compact_parts(ps, n - 1) + part_lexis(ps[n - 1].key),
            compact_lexis(ps[n - 1].value),
        );
    }
}

proof fn wrapped_fine(first: Seq<KindV>, inner: Seq<KindV>)
    requires
        all_compact_fine(first),
        all_compact_fine(inner),
    ensures
        all_compact_fine(wrapped(first, inner)),
{
    compact_fine_sum(first, inner);
    compact_fine_sum(first + inner, seq![KindV::Close]);
}

proof fn compact_term_fine(w: CompactV)
    requires
        compact_sane(w),
    ensures
        all_compact_fine(compact_lexis(w)),
    decreases w, 0int,
{
    words_differ();
    match w {
        CompactV::Int(n) => {
            numeral_reads_back(n);
            crate::sources::numeral_is_legible(n as int);
        },
        CompactV::Dict(ps) => {
            compact_parts_fine(ps, ps.len() as int);
            wrapped_fine(seq![KindV::Open], compact_parts(ps, ps.len() as int));
        },
        CompactV::Call { func, args } => {
            let rest = compact_parts(args, args.len() as int);
            compact_term_fine(*func);
            compact_parts_fine(args, args.len() as int);
            compact_fine_sum(compact_lexis(*func), rest);
            wrapped_fine(
                seq![KindV::Open, KindV::Word("call"@)],
                compact_lexis(*func) + rest,
            );
        },
        CompactV::Fn(body) => {
            compact_term_fine(*body);
            wrapped_fine(seq![KindV::Open, KindV::Word("fn"@)], compact_lexis(*body));
        },
        CompactV::Type(t) => {
            compact_term_fine(*t);
            wrapped_fine(seq![KindV::Open, KindV::Word("type"@)], compact_lexis(*t));
        },
        CompactV::Assert { note, value } => {
            compact_term_fine(*value);
            wrapped_fine(
                seq![KindV::Open, KindV::At, KindV::Word(note)],
                compact_lexis(*value),
            );
        },
        _ => {},
    }
}

spec fn signs_fine(ss: Seq<SignV>) -> bool {
    forall|i: int|
        0 <= i < ss.len() ==> compact_fine((#[trigger] ss[i]).kind) && (ss[i].joined ==> ss[i].kind
            is Open && i > 0 && ends_value(ss[i - 1].kind))
}

proof fn signs_fine_sum(a: Seq<SignV>, b: Seq<SignV>)
    requires
        signs_fine(a),
        signs_fine(b),
    ensures
        signs_fine(a + b),
{
    let c = a + b;
    assert forall|i: int| 0 <= i < c.len() implies compact_fine((#[trigger] c[i]).kind) && (
    c[i].joined ==> c[i].kind is Open && i > 0 && ends_value(c[i - 1].kind)) by {
        if i < a.len() {
            assert(compact_fine(a[i].kind));
            if i > 0 {
                assert(c[i - 1] == a[i - 1]);
            }
        } else {
            let j = i - a.len();
            assert(compact_fine(b[j].kind));
            if j > 0 {
                assert(c[i - 1] == b[j - 1]);
            }
        }
    }
}

proof fn plain_signs_fine(ks: Seq<KindV>)
    requires
        all_compact_fine(ks),
    ensures
        signs_fine(plain_signs(ks)),
{
    assert forall|i: int| 0 <= i < ks.len() implies compact_fine(
        (#[trigger] plain_signs(ks)[i]).kind,
    ) by {
        assert(compact_fine(ks[i]));
    }
}

proof fn compact_ends(w: CompactV)
    requires
        compact_sane(w),
    ensures
        compact_lexis(w).len() > 0,
        ends_value(compact_lexis(w).last()),
{
    match w {
        CompactV::Dict(_) | CompactV::Call { .. } | CompactV::Fn(_) => {
            assert(compact_lexis(w).last() is Close);
        },
        CompactV::Type(_) | CompactV::Assert { .. } => {
            assert(compact_lexis(w).last() is Close);
        },
        _ => {},
    }
}

proof fn access_fine(w: AccessV, n: int)
    requires
        0 <= n <= w.keys.len(),
        access_sane(w),
    ensures
        signs_fine(access_signs(w, n)),
        access_signs(w, n).len() > 0,
        ends_value(access_signs(w, n).last().kind),
    decreases n,
{
    if n == 0 {
        compact_term_fine(w.base);
        compact_ends(w.base);
        plain_signs_fine(compact_lexis(w.base));
    } else {
        access_fine(w, n - 1);
        let before = access_signs(w, n - 1);
        let open = seq![SignV { kind: KindV::Open, joined: true }];
        let ks = compact_lexis(w.keys[n - 1]) + seq![KindV::Close];
        assert(compact_sane(w.keys[n - 1]));
        compact_term_fine(w.keys[n - 1]);
        compact_fine_sum(compact_lexis(w.keys[n - 1]), seq![KindV::Close]);
        plain_signs_fine(ks);
        let c = before + open;
        assert(signs_fine(c)) by {
            assert forall|i: int| 0 <= i < c.len() implies compact_fine((#[trigger] c[i]).kind) && (
            c[i].joined ==> c[i].kind is Open && i > 0 && ends_value(c[i - 1].kind)) by {
                if i < before.len() {
                    assert(compact_fine(before[i].kind));
                    if i > 0 {
                        assert(c[i - 1] == before[i - 1]);
                    }
                } else {
                    assert(c[i - 1] == before.last());
                }
            }
        }
        signs_fine_sum(c, plain_signs(ks));
        assert(access_signs(w, n).last().kind is Close);
    }
}

proof fn sheet_fine(ws: Seq<AccessV>, n: int)
    requires
        0 <= n <= ws.len(),
        forall|k: int| 0 <= k < ws.len() ==> access_sane(#[trigger] ws[k]),
    ensures
        signs_fine(sheet_signs(ws, n)),
    decreases n,
{
    if n > 0 {
        sheet_fine(ws, n - 1);
        assert(access_sane(ws[n - 1]));
        access_fine(ws[n - 1], ws[n - 1].keys.len() as int);
        signs_fine_sum(
            sheet_signs(ws, n - 1),
            access_signs(ws[n - 1], ws[n - 1].keys.len() as int),
        );
    }
}

/// Whether lexemes are spaced as an expression asks: they can be told apart, and a bracket stands
/// right behind a value where it accesses the value, and apart from it where it does not.
pub open spec fn sheet_spaced(ms: Seq<MarkV>, ss: Seq<SignV>) -> bool {
    &&& ms.len() == ss.len()
    &&& forall|k: int| 0 <= k < ms.len() ==> (#[trigger] ms[k]).kind == ss[k].kind
    &&& forall|k: int| 0 < k < ms.len() ==> apart(ms[k - 1].kind, #[trigger] ms[k])
    &&& forall|k: int|
        0 < k < ms.len() && (#[trigger] ms[k]).kind is Open && ends_value(ms[k - 1].kind) ==> (
        ms[k].gap == 0 <==> ss[k].joined)
}

proof fn pieces_follow(src: Text, ls: Seq<LexemeV>, k: int, made: Seq<PieceAtV>)
    requires
        0 <= k <= ls.len(),
        made.len() == k,
        forall|j: int|
            0 <= j < k ==> piece_of(ls[j].kind, immediate(ls, j)) == Ok::<PieceV, Text>(
                (#[trigger] made[j]).tok,
            ) && made[j].span == region_of(src, ls[j].start, ls[j].end),
        forall|j: int| 0 <= j < ls.len() ==> compact_fine((#[trigger] ls[j]).kind),
    ensures
        pieces_from(src, ls, k, made) matches Ok(ts) && ts.len() == ls.len() && forall|j: int|
            0 <= j < ts.len() ==> piece_of(ls[j].kind, immediate(ls, j)) == Ok::<PieceV, Text>(
                (#[trigger] ts[j]).tok,
            ) && ts[j].span == region_of(src, ls[j].start, ls[j].end),
    decreases ls.len() - k,
{
    if k < ls.len() {
        assert(compact_fine(ls[k].kind));
        let tok = piece_of(ls[k].kind, immediate(ls, k))->Ok_0;
        let t = PieceAtV { tok, span: region_of(src, ls[k].start, ls[k].end) };
        pieces_follow(src, ls, k + 1, made.push(t));
    }
}

/// Whether pieces have the regions of the lexemes that they are spelled as.
pub open spec fn pieces_placed(ts: Seq<PieceAtV>, ms: Seq<MarkV>) -> bool {
    &&& ts.len() == ms.len()
    &&& forall|k: int|
        0 <= k < ts.len() ==> (#[trigger] ts[k]).span == region_of(
            spelled(ms),
            mark_start(ms, k),
            mark_end(ms, k),
        )
}

proof fn pieces_are_made(ms: Seq<MarkV>, ss: Seq<SignV>)
    requires
        sheet_spaced(ms, ss),
        signs_fine(ss),
    ensures
        pieces_of(spelled(ms)) matches Ok(ts) && pieces_placed(ts, ms) && no_idle(ts) && signs_at(
            ts,
            0,
            ss,
        ),
{
    assert(readable(ms)) by {
        assert forall|k: int| 0 <= k < ms.len() implies legible((#[trigger] ms[k]).kind) by {
            assert(compact_fine(ss[k].kind));
        }
    }
    spelled_lexemes_are_read(ms);
    let src = spelled(ms);
    let ls = marks_read(ms);
    assert forall|j: int| 0 <= j < ls.len() implies compact_fine((#[trigger] ls[j]).kind) by {
        assert(ms[j].kind == ss[j].kind);
        assert(compact_fine(ss[j].kind));
    }
    pieces_follow(src, ls, 0, Seq::empty());
    let ts = pieces_of(src)->Ok_0;
    assert forall|k: int| 0 <= k < ts.len() implies !((#[trigger] ts[k]).tok is Newline
        || ts[k].tok is Semicolon || ts[k].tok is Comment) by {
        assert(compact_fine(ls[k].kind));
    }
    assert forall|k: int| 0 <= k < ss.len() implies sign_fits(ts[0 + k].tok, #[trigger] ss[k]) by {
        assert(ms[k].kind == ss[k].kind);
        assert(compact_fine(ss[k].kind));
        assert(ts[k].span == region_of(src, ls[k].start, ls[k].end));
        if k > 0 {
            assert(ms[k - 1].kind == ss[k - 1].kind);
            assert(ms.take(k - 1 + 1) =~= ms.take(k));
            assert(ls[k].start == ls[k - 1].end + ms[k].gap);
        }
    }
}

/// A source that is written as expressions of the compact syntax parses to one document with the
/// trees of these expressions, in their order and with their regions.
pub proof fn written_sheet_parses(ms: Seq<MarkV>, ws: Seq<AccessV>)
    requires
        forall|k: int| 0 <= k < ws.len() ==> access_sane(#[trigger] ws[k]),
        sheet_spaced(ms, sheet_signs(ws, ws.len() as int)),
    ensures
        pieces_of(spelled(ms)) matches Ok(ts) && pieces_placed(ts, ms) && (parsed2(spelled(ms)) matches Ok(
            o,
        ) && {
            &&& o.documents.len() == 1
            &&& o.documents[0].expressions.len() == ws.len()
            &&& sheet_reads(o.documents[0].expressions, ws, ws.len() as int, ts)
        }),
{
    let n = ws.len() as int;
    let ss = sheet_signs(ws, n);
    sheet_fine(ws, n);
    pieces_are_made(ms, ss);
    let ts = pieces_of(spelled(ms))->Ok_0;
    let es = sheet_is_read(ws, n, ts, crate::text::byte_len(spelled(ms)));
}

/// Spaces as expressions ask for them: one before each lexeme, but none before a bracket that
/// accesses what stands before it.
pub open spec fn sheet_marks(ss: Seq<SignV>) -> Seq<MarkV> {
    Seq::new(
        ss.len(),
        |k: int|
            MarkV {
                kind: ss[k].kind,
                gap: if ss[k].joined {
                    0
                } else {
                    1
                },
            },
    )
}

/// Every row of expressions can be written as a source, and that source parses to their trees.
pub proof fn every_sheet_can_be_written(ws: Seq<AccessV>)
    requires
        forall|k: int| 0 <= k < ws.len() ==> access_sane(#[trigger] ws[k]),
    ensures
        ({
            let ss = sheet_signs(ws, ws.len() as int);
            let ms = sheet_marks(ss);
            &&& sheet_spaced(ms, ss)
            &&& pieces_of(spelled(ms)) matches Ok(ts) && (parsed2(spelled(ms)) matches Ok(o) && {
                &&& o.documents.len() == 1
                &&& o.documents[0].expressions.len() == ws.len()
                &&& sheet_reads(o.documents[0].expressions, ws, ws.len() as int, ts)
            })
        }),
{
    let ss = sheet_signs(ws, ws.len() as int);
    let ms = sheet_marks(ss);
    sheet_fine(ws, ws.len() as int);
    assert forall|k: int| 0 < k < ms.len() implies apart(ms[k - 1].kind, #[trigger] ms[k]) by {
        assert(compact_fine(ss[k].kind) && compact_fine(ss[k - 1].kind));
    }
    written_sheet_parses(ms, ws);
}

} // verus!
