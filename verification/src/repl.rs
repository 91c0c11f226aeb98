//! The interactive session: what an input needs before it is evaluated, what the outcome does to the
//! session, and the commands about the session itself.
use crate::ast::Span;
use crate::diagnostic::{DiagV, TypeDiagnostic};
use crate::model::Text;
use crate::parser::{parse, parsed, OutputV, ParseOutput};
use crate::report::{render_span_snippet, span_snippet};
use crate::text::{
    byte_len, byte_len_bound, chars_of, count_bytes, decimal, decimal_text, join3, slice_text,
    text_is, trim_text, trimmed,
};
use crate::thunk::{bare_thunk, new_dict, EvalContext, ThunkId, ThunkV, Value, ValueV};
use std::sync::Arc;
use vstd::hash_map::StringHashMap;
use vstd::prelude::*;

verus! {

/// How many bytes an input can have.
pub const MAX_FILE_SIZE: u64 = 10485760;

/// The names in scope: a chain of scopes, the innermost last.
pub struct Environment {
    pub scopes: Vec<StringHashMap<ThunkId>>,
}

impl DeepView for Environment {
    type V = Seq<Map<Text, ThunkId>>;

    open spec fn deep_view(&self) -> Seq<Map<Text, ThunkId>> {
        Seq::new(self.scopes@.len(), |i: int| self.scopes@[i]@)
    }
}

/// The scopes with a name bound in the innermost.
pub open spec fn bound(env: Seq<Map<Text, ThunkId>>, name: Text, id: ThunkId) -> Seq<
    Map<Text, ThunkId>,
> {
    if env.len() == 0 {
        seq![Map::empty().insert(name, id)]
    } else {
        env.drop_last().push(env.last().insert(name, id))
    }
}

/// What a name is bound to: the innermost scope that has it decides.
pub open spec fn lookup(env: Seq<Map<Text, ThunkId>>, name: Text) -> Option<ThunkId>
    decreases env.len(),
{
    if env.len() == 0 {
        None
    } else if env.last().contains_key(name) {
        Some(env.last()[name])
    } else {
        lookup(env.drop_last(), name)
    }
}

impl Environment {
    /// An environment without scopes.
    pub fn new() -> (r: Environment)
        ensures
            r.deep_view() == Seq::<Map<Text, ThunkId>>::empty(),
    {
        let r: Environment = Environment { scopes: Vec::new() };
        assert(r.deep_view() =~= Seq::<Map<Text, ThunkId>>::empty());
        r
    }

    /// Adds a scope.
    pub fn push_scope(&mut self, scope: StringHashMap<ThunkId>)
        ensures
            final(self).deep_view() == old(self).deep_view().push(scope@),
    {
        let ghost before = self.deep_view();
        self.scopes.push(scope);
        assert(self.deep_view() =~= before.push(scope@));
    }

    /// Binds a name in the innermost scope.
    pub fn insert(&mut self, name: String, id: ThunkId)
        ensures
            final(self).deep_view() == bound(old(self).deep_view(), name@, id),
    {
        let ghost before = self.deep_view();
        let ghost scopes = self.scopes@;
        let mut scope: StringHashMap<ThunkId> = match self.scopes.pop() {
            Some(scope) => {
                assert(before.last() == scope@);
                scope
            },
            None => StringHashMap::new(),
        };
        scope.insert(name, id);
        self.scopes.push(scope);
        assert(self.deep_view() =~= bound(before, name@, id));
    }

    /// What a name is bound to.
    pub fn get(&self, name: &str) -> (r: Option<ThunkId>)
        ensures
            r == lookup(self.deep_view(), name@),
    {
        let ghost env = self.deep_view();
        let mut i: usize = self.scopes.len();
        assert(env.take(i as int) =~= env);
        while i > 0
            invariant
                i <= self.scopes@.len(),
                env == self.deep_view(),
                lookup(env.take(i as int), name@) == lookup(env, name@),
            decreases i,
        {
            assert(env.take(i as int).drop_last() =~= env.take(i - 1));
            assert(env.take(i as int).last() == self.scopes@[i - 1]@);
            match self.scopes[i - 1].get(name) {
                Some(id) => {
                    return Some(*id);
                },
                None => {},
            }
            i = i - 1;
        }
        None
    }
}

/// The type of what stands in a region of an input.
pub struct TypeEntry {
    pub start: usize,
    pub end: usize,
    pub ty: String,
}

pub struct TypeV {
    pub start: usize,
    pub end: usize,
    pub ty: Text,
}

impl DeepView for TypeEntry {
    type V = TypeV;

    open spec fn deep_view(&self) -> TypeV {
        TypeV { start: self.start, end: self.end, ty: self.ty@ }
    }
}

/// The type of a region; what was learnt last counts.
pub open spec fn type_of(types: Seq<TypeV>, start: usize, end: usize) -> Option<Text>
    decreases types.len(),
{
    if types.len() == 0 {
        None
    } else if types.last().start == start && types.last().end == end {
        Some(types.last().ty)
    } else {
        type_of(types.drop_last(), start, end)
    }
}

/// The state of a session: its names, the result of the last input, the arena, and what is known of
/// types and documentation.
pub struct ReplSession {
    pub env: Environment,
    pub prev_result: ThunkId,
    pub ctx: EvalContext,
    pub type_map: Vec<TypeEntry>,
    pub doc_map: StringHashMap<String>,
}

pub struct SessionV {
    pub env: Seq<Map<Text, ThunkId>>,
    pub prev_result: ThunkId,
    pub arena: Seq<ThunkV>,
    pub types: Seq<TypeV>,
    pub docs: Map<Text, String>,
}

impl DeepView for ReplSession {
    type V = SessionV;

    open spec fn deep_view(&self) -> SessionV {
        SessionV {
            env: self.env.deep_view(),
            prev_result: self.prev_result,
            arena: self.ctx.deep_view(),
            types: self.type_map.deep_view(),
            docs: self.doc_map@,
        }
    }
}

/// A new session inside an environment: the last result is an empty dict, which `%` names.
pub open spec fn new_session(env: Seq<Map<Text, ThunkId>>, arena: Seq<ThunkV>) -> SessionV {
    let id = ThunkId { index: arena.len() as usize };
    SessionV {
        env: env.push(Map::empty().insert("%"@, id)),
        prev_result: id,
        arena: arena.push(bare_thunk(ValueV::Dict(Seq::empty()))),
        types: Seq::empty(),
        docs: Map::empty(),
    }
}

/// A session, or why it cannot start: the current directory cannot be opened.
pub open spec fn started(
    env: Seq<Map<Text, ThunkId>>,
    arena: Seq<ThunkV>,
    base_dir: Result<(), String>,
) -> Result<SessionV, Text> {
    match base_dir {
        Err(e) => Err("cannot open current directory: "@ + e@),
        Ok(_) => Ok(new_session(env, arena)),
    }
}

/// Whether a session started as its model says.
pub open spec fn same_start(r: Result<ReplSession, String>, m: Result<SessionV, Text>) -> bool {
    match (r, m) {
        (Ok(s), Ok(v)) => s.deep_view() == v,
        (Err(e), Err(v)) => e@ == v,
        _ => false,
    }
}

/// A key of a dict.
pub enum Key {
    Name(String),
    Index(i64),
}

/// What the evaluator makes of an input: the result, its entries where it is a dict, and its
/// display.
pub struct Evaluated {
    pub result: ThunkId,
    pub entries: Option<Vec<(Key, ThunkId)>>,
    pub display: String,
}

/// Why an input cannot be evaluated, and which region of it is to blame.
pub struct EvalError {
    pub message: String,
    pub span: Span,
}

/// What is learnt from an input: types, documentation, and the outcome of its evaluation.
pub struct Evaluation {
    pub types: Vec<TypeEntry>,
    pub docs: Vec<(String, String)>,
    pub outcome: Result<Evaluated, EvalError>,
}

/// What an input leads to: a display, or a message.
pub type StepResult = Result<String, String>;

/// The scope with the named entries of a dict bound, in their order.
pub open spec fn with_entries(scope: Map<Text, ThunkId>, entries: Seq<(Key, ThunkId)>) -> Map<
    Text,
    ThunkId,
>
    decreases entries.len(),
{
    if entries.len() == 0 {
        scope
    } else {
        match entries.last().0 {
            Key::Name(name) => with_entries(scope, entries.drop_last()).insert(
                name@,
                entries.last().1,
            ),
            Key::Index(_) => with_entries(scope, entries.drop_last()),
        }
    }
}

/// The documentation with more entries.
pub open spec fn with_docs(docs: Map<Text, String>, more: Seq<(String, String)>) -> Map<
    Text,
    String,
>
    decreases more.len(),
{
    if more.len() == 0 {
        docs
    } else {
        with_docs(docs, more.drop_last()).insert(more.last().0@, more.last().1)
    }
}

/// The session after a result: `%` names it, and the named entries of a dict are bound in a new
/// scope. An entry `%` does not hide the result.
pub open spec fn with_result(s: SessionV, e: Evaluated) -> SessionV {
    SessionV {
        prev_result: e.result,
        env: match e.entries {
            Some(entries) => s.env.push(
                with_entries(Map::empty(), entries@).insert("%"@, e.result),
            ),
            None => bound(s.env, "%"@, e.result),
        },
        ..s
    }
}

/// The session after types and documentation are learnt.
pub open spec fn informed(s: SessionV, e: Evaluation) -> SessionV {
    SessionV {
        types: s.types + e.types.deep_view(),
        docs: with_docs(s.docs, e.docs@),
        ..s
    }
}

/// The message on an error, with the line of the input that it is about.
pub open spec fn error_text(e: EvalError, input: Text) -> Text {
    match span_snippet(input, e.span.deep_view()) {
        Some(snippet) => e.message@ + "\n"@ + snippet,
        None => e.message@,
    }
}

/// A diagnostic on one line: its place and its message.
pub open spec fn diagnostic_line(d: DiagV) -> Text {
    if d.spans.len() == 0 {
        d.message
    } else {
        decimal(d.spans[0].0.start_line as nat) + ":"@ + decimal(
            d.spans[0].0.start_col as nat,
        ) + ": "@ + d.message
    }
}

/// The message for an input that is too long.
pub open spec fn too_long() -> Text {
    "input exceeds the 10 MB limit (10485760 bytes)"@
}

/// An input, parsed, or why it cannot be evaluated.
pub open spec fn input_read(input: Text) -> Result<OutputV, Text> {
    if byte_len(input) > MAX_FILE_SIZE {
        Err(too_long())
    } else {
        match parsed(input, "<repl>"@) {
            Ok(o) => Ok(o),
            Err(d) => Err(diagnostic_line(d)),
        }
    }
}

/// The session and the answer after a parsed input is evaluated. An error leaves the names and the
/// last result as they were.
pub open spec fn committed(s: SessionV, input: Text, o: OutputV, e: Evaluation) -> (
    SessionV,
    Result<Text, Text>,
) {
    let known = informed(s, e);
    if o.documents.len() == 0 {
        (known, Err("empty input"@))
    } else {
        match e.outcome {
            Err(error) => (known, Err(error_text(error, input))),
            Ok(done) => (with_result(known, done), Ok(done.display@)),
        }
    }
}

/// The session and the answer after an input.
pub open spec fn evaluated(s: SessionV, input: Text, e: Evaluation) -> (
    SessionV,
    Result<Text, Text>,
) {
    match input_read(input) {
        Err(message) => (s, Err(message)),
        Ok(o) => committed(s, input, o, e),
    }
}

/// Whether an answer is what its model says.
pub open spec fn same_answer(r: StepResult, m: Result<Text, Text>) -> bool {
    match (r, m) {
        (Ok(s), Ok(t)) => s@ == t,
        (Err(s), Err(t)) => s@ == t,
        _ => false,
    }
}

/// An input that fails leaves the names and the last result as they were.
pub proof fn failure_keeps_names(s: SessionV, input: Text, e: Evaluation)
    ensures
        evaluated(s, input, e).1 is Err ==> evaluated(s, input, e).0.env == s.env,
        evaluated(s, input, e).1 is Err ==> evaluated(s, input, e).0.prev_result == s.prev_result,
        evaluated(s, input, e).0.arena == s.arena,
{
}

/// After an input that succeeds, `%` names its result.
pub proof fn percent_names_result(s: SessionV, input: Text, e: Evaluation)
    requires
        evaluated(s, input, e).1 is Ok,
    ensures
        lookup(evaluated(s, input, e).0.env, "%"@) == Some(e.outcome->Ok_0.result),
        evaluated(s, input, e).0.prev_result == e.outcome->Ok_0.result,
{
}

/// Whether no entry has a name.
pub open spec fn no_entry(entries: Seq<(Key, ThunkId)>, name: Text) -> bool {
    forall|i: int|
        0 <= i < entries.len() ==> match (#[trigger] entries[i]).0 {
            Key::Name(n) => n@ != name,
            Key::Index(_) => true,
        }
}

proof fn entries_keep(scope: Map<Text, ThunkId>, entries: Seq<(Key, ThunkId)>, name: Text)
    requires
        no_entry(entries, name),
    ensures
        with_entries(scope, entries).contains_key(name) == scope.contains_key(name),
        scope.contains_key(name) ==> with_entries(scope, entries)[name] == scope[name],
    decreases entries.len(),
{
    if entries.len() > 0 {
        assert(no_entry(entries.drop_last(), name)) by {
            assert forall|i: int| 0 <= i < entries.len() - 1 implies match (
            #[trigger] entries.drop_last()[i]).0 {
                Key::Name(n) => n@ != name,
                Key::Index(_) => true,
            } by {
                assert(entries.drop_last()[i] == entries[i]);
            }
        }
        entries_keep(scope, entries.drop_last(), name);
        assert(entries.last() == entries[entries.len() - 1]);
    }
}

/// After a result that is a dict, its last entry with a name other than `%` is what the name stands
/// for.
pub proof fn entry_is_bound(s: SessionV, e: Evaluated, i: int)
    requires
        e.entries is Some,
        0 <= i < e.entries->0@.len(),
        e.entries->0@[i].0 is Name,
        e.entries->0@[i].0->Name_0@ != "%"@,
        no_entry(e.entries->0@.skip(i + 1), e.entries->0@[i].0->Name_0@),
    ensures
        lookup(with_result(s, e).env, e.entries->0@[i].0->Name_0@) == Some(e.entries->0@[i].1),
{
    let entries = e.entries->0@;
    let name = entries[i].0->Name_0@;
    let start = Map::<Text, ThunkId>::empty();
    let head = with_entries(start, entries.take(i + 1));
    assert(entries.take(i + 1).drop_last() =~= entries.take(i));
    assert(head == with_entries(start, entries.take(i)).insert(name, entries[i].1));
    entries_split(start, entries, i + 1);
    entries_keep(head, entries.skip(i + 1), name);
}

proof fn entries_split(scope: Map<Text, ThunkId>, entries: Seq<(Key, ThunkId)>, k: int)
    requires
        0 <= k <= entries.len(),
    ensures
        with_entries(scope, entries) == with_entries(
            with_entries(scope, entries.take(k)),
            entries.skip(k),
        ),
    decreases entries.len() - k,
{
    if k == entries.len() {
        assert(entries.take(k) =~= entries);
        assert(entries.skip(k) =~= Seq::empty());
    } else {
        let shorter = entries.drop_last();
        entries_split(scope, shorter, k);
        assert(shorter.take(k) =~= entries.take(k));
        assert(entries.skip(k).drop_last() =~= shorter.skip(k));
        assert(entries.skip(k).last() == entries.last());
    }
}

/// Names that a result does not bind mean what they meant before.
pub proof fn other_names_stay(s: SessionV, e: Evaluated, name: Text)
    requires
        name != "%"@,
        e.entries matches Some(entries) ==> no_entry(entries@, name),
    ensures
        lookup(with_result(s, e).env, name) == lookup(s.env, name),
{
    match e.entries {
        Some(entries) => {
            entries_keep(Map::empty(), entries@, name);
            let env = s.env.push(with_entries(Map::empty(), entries@).insert("%"@, e.result));
            assert(with_result(s, e).env == env);
            assert(!env.last().contains_key(name));
            assert(env.drop_last() =~= s.env);
        },
        None => {
            let env = bound(s.env, "%"@, e.result);
            if s.env.len() > 0 {
                assert(env.drop_last() =~= s.env.drop_last());
            } else {
                assert(env.drop_last() =~= Seq::empty());
                assert(lookup(env.drop_last(), name) is None);
            }
        },
    }
}

fn bind_entries(entries: Vec<(Key, ThunkId)>) -> (r: StringHashMap<ThunkId>)
    ensures
        r@ == with_entries(Map::empty(), entries@),
{
    let mut out: StringHashMap<ThunkId> = StringHashMap::new();
    let mut i: usize = 0;
    while i < entries.len()
        invariant
            i <= entries@.len(),
            out@ == with_entries(Map::empty(), entries@.take(i as int)),
        decreases entries@.len() - i,
    {
        assert(entries@.take(i + 1).drop_last() =~= entries@.take(i as int));
        match &entries[i].0 {
            Key::Name(name) => {
                out.insert(name.clone(), entries[i].1);
            },
            Key::Index(_) => {},
        }
        i = i + 1;
    }
    assert(entries@.take(i as int) =~= entries@);
    out
}

/// A diagnostic on one line: its place and its message.
pub fn describe_diagnostic(d: &TypeDiagnostic) -> (r: String)
    ensures
        r@ == diagnostic_line(d.deep_view()),
{
    if d.spans.len() == 0 {
        return d.message.clone();
    }
    assert(d.spans.deep_view()[0] == d.spans@[0].deep_view());
    let mut out: String = decimal_text(d.spans[0].0.start_line as u64);
    out.append(":");
    out.append(decimal_text(d.spans[0].0.start_col as u64).as_str());
    out.append(": ");
    out.append(d.message.as_str());
    out
}

/// The lines that report the errors from which a parse went on.
pub open spec fn recovered_text(ds: Seq<DiagV>) -> Seq<Text> {
    Seq::new(ds.len(), |i: int| "parse error: "@ + diagnostic_line(ds[i]))
}

/// The lines that report the errors from which a parse went on.
pub fn recovered_lines(output: &ParseOutput) -> (r: Vec<String>)
    ensures
        r.deep_view() == recovered_text(output.deep_view().diagnostics),
{
    broadcast use crate::model::group_models;

    let ghost all = output.deep_view().diagnostics;
    let mut out: Vec<String> = Vec::new();
    let mut i: usize = 0;
    while i < output.diagnostics.len()
        invariant
            i <= output.diagnostics@.len(),
            all == output.diagnostics.deep_view(),
            out.deep_view() == recovered_text(all).take(i as int),
        decreases output.diagnostics@.len() - i,
    {
        let ghost before = out.deep_view();
        assert(all[i as int] == output.diagnostics@[i as int].deep_view());
        let mut line: String = "parse error: ".to_owned();
        line.append(describe_diagnostic(&output.diagnostics[i]).as_str());
        let ghost lv = line@;
        out.push(line);
        assert(out.deep_view() == before.push(lv));
        i = i + 1;
        assert(out.deep_view() =~= recovered_text(all).take(i as int));
    }
    assert(out.deep_view() =~= recovered_text(all));
    out
}

/// What a command about the session prints: lines of output and lines of error output.
pub struct Reply {
    pub out: Vec<String>,
    pub err: Vec<String>,
}

pub struct ReplyV {
    pub out: Seq<Text>,
    pub err: Seq<Text>,
}

impl DeepView for Reply {
    type V = ReplyV;

    open spec fn deep_view(&self) -> ReplyV {
        ReplyV { out: self.out.deep_view(), err: self.err.deep_view() }
    }
}

/// The type of what a name is bound to.
pub open spec fn type_of_name(s: SessionV, name: Text) -> Option<Text> {
    match lookup(s.env, name) {
        None => None,
        Some(id) => if id.index < s.arena.len() {
            let t = s.arena[id.index as int];
            type_of(s.types, t.start, t.end)
        } else {
            None
        },
    }
}

/// The answer to `:describe name`.
pub open spec fn described(s: SessionV, name: Text) -> ReplyV {
    let known = s.docs.contains_key(name);
    let doc = s.docs[name]@;
    match type_of_name(s, name) {
        Some(ty) => ReplyV {
            out: if known {
                seq![name + " : "@ + ty, Seq::empty(), doc]
            } else {
                seq![name + " : "@ + ty]
            },
            err: Seq::empty(),
        },
        None => if known {
            ReplyV {
                out: seq![name + " : "@ + "<unknown type>"@, Seq::empty(), doc],
                err: Seq::empty(),
            }
        } else {
            ReplyV { out: Seq::empty(), err: seq!["not found: "@ + name] }
        },
    }
}

/// The answer to `:type name`.
pub open spec fn typed(s: SessionV, name: Text) -> ReplyV {
    match type_of_name(s, name) {
        Some(ty) => ReplyV { out: seq![name + " : "@ + ty], err: Seq::empty() },
        None => ReplyV { out: Seq::empty(), err: seq!["not found: "@ + name] },
    }
}

/// The answer to `:help`.
pub open spec fn help_text() -> ReplyV {
    ReplyV {
        out: seq![
            "REPL meta-commands:"@,
            "  :describe <name>  Show type and documentation for a binding"@,
            "  :type <name>      Show type signature only"@,
            "  :help             Show this help message"@,
        ],
        err: Seq::empty(),
    }
}

/// The first place of a space in a text from place `i` on, or the end.
pub open spec fn space_place(s: Text, i: int) -> int
    decreases s.len() - i,
{
    if 0 <= i < s.len() && s[i] != ' ' {
        space_place(s, i + 1)
    } else {
        i
    }
}

/// The word before the first space.
pub open spec fn command_word(line: Text) -> Text {
    line.take(space_place(line, 0))
}

/// What stands behind the first space, without the white space around it.
pub open spec fn command_argument(line: Text) -> Option<Text> {
    let k = space_place(line, 0);
    if k < line.len() {
        Some(trimmed(line.skip(k + 1)))
    } else {
        None
    }
}

/// A reply of one line of error output.
pub open spec fn complaint(line: Text) -> ReplyV {
    ReplyV { out: Seq::empty(), err: seq![line] }
}

/// The answer to a command about the session.
pub open spec fn command_reply(s: SessionV, line: Text) -> ReplyV {
    let cmd = command_word(line);
    let arg = command_argument(line);
    if cmd == ":describe"@ {
        match arg {
            Some(name) => described(s, name),
            None => complaint("usage: :describe <name>"@),
        }
    } else if cmd == ":type"@ {
        match arg {
            Some(name) => typed(s, name),
            None => complaint("usage: :type <name>"@),
        }
    } else if cmd == ":help"@ {
        help_text()
    } else {
        ReplyV {
            out: Seq::empty(),
            err: seq!["Unknown command: "@ + cmd, "Type :help for available commands."@],
        }
    }
}

fn complain(line: &str) -> (r: Reply)
    ensures
        r.deep_view() == complaint(line@),
{
    broadcast use crate::model::group_models;

    let mut err: Vec<String> = Vec::new();
    err.push(line.to_owned());
    assert(err.deep_view() =~= seq![line@]);
    Reply { out: Vec::new(), err }
}

fn say(line: String) -> (r: Reply)
    ensures
        r.deep_view() == (ReplyV { out: seq![line@], err: Seq::empty() }),
{
    broadcast use crate::model::group_models;

    let ghost text = line@;
    let mut out: Vec<String> = Vec::new();
    out.push(line);
    assert(out.deep_view() =~= seq![text]);
    Reply { out, err: Vec::new() }
}

impl ReplSession {
    /// A session inside the standard library, given the library and whether the current directory
    /// could be opened; both can fail.
    pub fn new(
        stdlib: Result<(Environment, EvalContext), String>,
        base_dir: Result<(), String>,
    ) -> (r: Result<ReplSession, String>)
        ensures
            match stdlib {
                Err(e) => same_start(r, Err(e@)),
                Ok((env, ctx)) => same_start(
                    r,
                    started(env.deep_view(), ctx.deep_view(), base_dir),
                ),
            },
    {
        match stdlib {
            Err(e) => Err(e),
            Ok((env, ctx)) => ReplSession::with_env_and_arena(env, ctx, base_dir),
        }
    }

    /// A session inside an environment, given the arena of the standard library and whether the
    /// current directory could be opened; both can fail.
    pub fn with_env(
        env: Environment,
        arena: Result<EvalContext, String>,
        base_dir: Result<(), String>,
    ) -> (r: Result<ReplSession, String>)
        ensures
            match arena {
                Err(e) => same_start(r, Err(e@)),
                Ok(ctx) => same_start(r, started(env.deep_view(), ctx.deep_view(), base_dir)),
            },
    {
        match arena {
            Err(e) => Err(e),
            Ok(ctx) => ReplSession::with_env_and_arena(env, ctx, base_dir),
        }
    }

    /// A session inside an environment with its arena.
    pub fn with_env_and_arena(
        env: Environment,
        arena: EvalContext,
        base_dir: Result<(), String>,
    ) -> (r: Result<ReplSession, String>)
        ensures
            same_start(r, started(env.deep_view(), arena.deep_view(), base_dir)),
    {
        broadcast use crate::model::group_models;

        match base_dir {
            Err(e) => {
                let mut message: String = "cannot open current directory: ".to_owned();
                message.append(e.as_str());
                return Err(message);
            },
            Ok(_) => {},
        }
        let ghost outer = env.deep_view();
        let ghost values = arena.deep_view();
        let mut ctx: EvalContext = arena;
        let id: ThunkId = ctx.alloc_value(Value::Dict(new_dict()));
        let mut scope: StringHashMap<ThunkId> = StringHashMap::new();
        scope.insert("%".to_owned(), id);
        let mut inner: Environment = env;
        inner.push_scope(scope);
        let s: ReplSession = ReplSession {
            env: inner,
            prev_result: id,
            ctx,
            type_map: Vec::new(),
            doc_map: StringHashMap::new(),
        };
        assert(s.deep_view() == new_session(outer, values));
        Ok(s)
    }

    /// Parses an input; one that is too long is refused.
    pub fn read_input(&self, input: &str) -> (r: Result<ParseOutput, String>)
        ensures
            match (r, input_read(input@)) {
                (Ok(o), Ok(v)) => o.deep_view() == v,
                (Err(e), Err(v)) => e@ == v,
                _ => false,
            },
    {
        let size: usize = count_bytes(input);
        if size as u64 > MAX_FILE_SIZE {
            return Err("input exceeds the 10 MB limit (10485760 bytes)".to_owned());
        }
        proof {
            byte_len_bound(input@);
        }
        match parse(input, Arc::new("<repl>".to_owned())) {
            Ok(o) => Ok(o),
            Err(d) => Err(describe_diagnostic(&d)),
        }
    }

    /// Takes in what the evaluator made of a parsed input.
    pub fn commit(&mut self, input: &str, output: &ParseOutput, evaluation: Evaluation) -> (r:
        StepResult)
        ensures
            final(self).deep_view() == committed(
                old(self).deep_view(),
                input@,
                output.deep_view(),
                evaluation,
            ).0,
            same_answer(
                r,
                committed(old(self).deep_view(), input@, output.deep_view(), evaluation).1,
            ),
    {
        broadcast use crate::model::group_models;

        let ghost before = self.deep_view();
        let ghost given = evaluation;
        let mut types: Vec<TypeEntry> = evaluation.types;
        self.type_map.append(&mut types);
        let docs: Vec<(String, String)> = evaluation.docs;
        let mut i: usize = 0;
        while i < docs.len()
            invariant
                i <= docs@.len(),
                self.doc_map@ == with_docs(before.docs, docs@.take(i as int)),
                self.env.deep_view() == before.env,
                self.prev_result == before.prev_result,
                self.ctx.deep_view() == before.arena,
                self.type_map.deep_view() == before.types + given.types.deep_view(),
            decreases docs@.len() - i,
        {
            assert(docs@.take(i + 1).drop_last() =~= docs@.take(i as int));
            self.doc_map.insert(docs[i].0.clone(), docs[i].1.clone());
            i = i + 1;
        }
        assert(docs@.take(i as int) =~= docs@);
        assert(self.deep_view() == informed(before, given));
        if output.program.documents.len() == 0 {
            return Err("empty input".to_owned());
        }
        match evaluation.outcome {
            Err(e) => {
                match render_span_snippet(input, &e.span) {
                    Some(snippet) => Err(join3(e.message.as_str(), "\n", snippet.as_str())),
                    None => Err(e.message),
                }
            },
            Ok(done) => {
                self.prev_result = done.result;
                match done.entries {
                    Some(entries) => {
                        let mut scope: StringHashMap<ThunkId> = bind_entries(entries);
                        scope.insert("%".to_owned(), done.result);
                        self.env.push_scope(scope);
                    },
                    None => {
                        self.env.insert("%".to_owned(), done.result);
                    },
                }
                Ok(done.display)
            },
        }
    }

    /// Evaluates a complete input, given what the evaluator makes of it.
    pub fn eval_input(&mut self, input: &str, evaluation: Evaluation) -> (r: StepResult)
        ensures
            final(self).deep_view() == evaluated(old(self).deep_view(), input@, evaluation).0,
            same_answer(r, evaluated(old(self).deep_view(), input@, evaluation).1),
    {
        match self.read_input(input) {
            Err(message) => Err(message),
            Ok(output) => self.commit(input, &output, evaluation),
        }
    }

    fn lookup_type(&self, name: &str) -> (r: Option<String>)
        ensures
            r.deep_view() == type_of_name(self.deep_view(), name@),
    {
        let id: ThunkId = match self.env.get(name) {
            Some(id) => id,
            None => {
                return None;
            },
        };
        let (start, end) = match self.ctx.get_thunk(id) {
            Some(t) => (t.start, t.end),
            None => {
                return None;
            },
        };
        let ghost types = self.type_map.deep_view();
        let mut i: usize = self.type_map.len();
        assert(types.take(i as int) =~= types);
        while i > 0
            invariant
                i <= self.type_map@.len(),
                types == self.type_map.deep_view(),
                type_of(types, start, end) == type_of_name(self.deep_view(), name@),
                type_of(types.take(i as int), start, end) == type_of(types, start, end),
            decreases i,
        {
            assert(types.take(i as int).drop_last() =~= types.take(i - 1));
            assert(types.take(i as int).last() == self.type_map@[i - 1].deep_view());
            if self.type_map[i - 1].start == start && self.type_map[i - 1].end == end {
                return Some(self.type_map[i - 1].ty.clone());
            }
            i = i - 1;
        }
        None
    }

    fn describe(&self, name: &str) -> (r: Reply)
        ensures
            r.deep_view() == described(self.deep_view(), name@),
    {
        broadcast use crate::model::group_models;

        let known: Option<String> = self.lookup_type(name);
        let first: Option<String> = match &known {
            Some(ty) => Some(join3(name, " : ", ty.as_str())),
            None => None,
        };
        match self.doc_map.get(name) {
            Some(doc) => {
                let head: String = match first {
                    Some(line) => line,
                    None => join3(name, " : ", "<unknown type>"),
                };
                let ghost text = head@;
                let mut out: Vec<String> = Vec::new();
                out.push(head);
                out.push(String::new());
                out.push(doc.clone());
                assert(out.deep_view() =~= seq![text, Seq::empty(), doc@]);
                Reply { out, err: Vec::new() }
            },
            None => match first {
                Some(line) => say(line),
                None => {
                    let mut line: String = "not found: ".to_owned();
                    line.append(name);
                    complain(line.as_str())
                },
            },
        }
    }

    fn show_type(&self, name: &str) -> (r: Reply)
        ensures
            r.deep_view() == typed(self.deep_view(), name@),
    {
        match self.lookup_type(name) {
            Some(ty) => say(join3(name, " : ", ty.as_str())),
            None => {
                let mut line: String = "not found: ".to_owned();
                line.append(name);
                complain(line.as_str())
            },
        }
    }

    fn show_help(&self) -> (r: Reply)
        ensures
            r.deep_view() == help_text(),
    {
        broadcast use crate::model::group_models;

        let mut out: Vec<String> = Vec::new();
        out.push("REPL meta-commands:".to_owned());
        out.push("  :describe <name>  Show type and documentation for a binding".to_owned());
        out.push("  :type <name>      Show type signature only".to_owned());
        out.push("  :help             Show this help message".to_owned());
        assert(out.deep_view() =~= help_text().out);
        Reply { out, err: Vec::new() }
    }

    /// Answers a command about the session. The session always goes on.
    pub fn handle_meta_command(&self, line: &str) -> (r: (bool, Reply))
        ensures
            r.0,
            r.1.deep_view() == command_reply(self.deep_view(), line@),
    {
        broadcast use crate::model::group_models;

        let chars: Vec<char> = chars_of(line);
        let n: usize = chars.len();
        let mut k: usize = 0;
        while k < n && chars[k] != ' '
            invariant
                k <= n,
                n == chars@.len(),
                chars@ == line@,
                space_place(line@, k as int) == space_place(line@, 0),
            decreases n - k,
        {
            k = k + 1;
        }
        let cmd: String = slice_text(&chars, 0, k);
        assert(cmd@ =~= command_word(line@));
        let arg: Option<String> = if k < n {
            let rest: String = slice_text(&chars, k + 1, n);
            assert(rest@ =~= line@.skip(k + 1));
            Some(trim_text(rest.as_str()))
        } else {
            None
        };
        assert(arg.deep_view() == command_argument(line@));
        let reply: Reply = if text_is(&cmd, ":describe") {
            match arg {
                Some(name) => self.describe(name.as_str()),
                None => complain("usage: :describe <name>"),
            }
        } else if text_is(&cmd, ":type") {
            match arg {
                Some(name) => self.show_type(name.as_str()),
                None => complain("usage: :type <name>"),
            }
        } else if text_is(&cmd, ":help") {
            self.show_help()
        } else {
            let mut first: String = "Unknown command: ".to_owned();
            first.append(cmd.as_str());
            let ghost text = first@;
            let mut err: Vec<String> = Vec::new();
            err.push(first);
            err.push("Type :help for available commands.".to_owned());
            assert(err.deep_view() =~= seq![text, "Type :help for available commands."@]);
            Reply { out: Vec::new(), err }
        };
        (true, reply)
    }
}

} // verus!
