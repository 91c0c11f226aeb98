//! What the session answers about names: how the answers to its commands belong together, and to
//! the inputs that went before.
use crate::model::Text;
use crate::repl::{
    command_argument, command_reply, command_word, described, evaluated, input_read, lookup,
    new_session, space_place, type_of, typed, with_docs, with_entries, Evaluation, Key, ReplyV,
    SessionV, TypeV,
};
use crate::text::trimmed;
use crate::thunk::{ThunkId, ThunkV, ValueV};
use vstd::prelude::*;

verus! {

/// The line of a command with its argument.
pub open spec fn command_line(word: Text, argument: Text) -> Text {
    word + seq![' '] + argument
}

proof fn word_is_passed(line: Text, i: int, k: int)
    requires
        0 <= i <= k <= line.len(),
        forall|j: int| i <= j < k ==> #[trigger] line[j] != ' ',
        k < line.len() ==> line[k] == ' ',
    ensures
        space_place(line, i) == k,
    decreases k - i,
{
    if i < k {
        word_is_passed(line, i + 1, k);
    }
}

/// The word of a command is what stands before the first space, and its argument what stands
/// behind, without the white space at its ends.
pub proof fn command_is_split(word: Text, argument: Text)
    requires
        !word.contains(' '),
    ensures
        command_word(command_line(word, argument)) == word,
        command_argument(command_line(word, argument)) == Some(trimmed(argument)),
        command_word(word) == word,
        command_argument(word) is None,
{
    let line = command_line(word, argument);
    let k = word.len() as int;
    assert forall|j: int| 0 <= j < k implies #[trigger] line[j] != ' ' by {
        assert(word.contains(word[j]));
    }
    word_is_passed(line, 0, k);
    assert(line.take(k) =~= word);
    assert(line.skip(k + 1) =~= argument);
    assert forall|j: int| 0 <= j < k implies #[trigger] word[j] != ' ' by {
        assert(word.contains(word[j]));
    }
    word_is_passed(word, 0, k);
    assert(word.take(k) =~= word);
}

proof fn commands_have_no_space()
    ensures
        !":type"@.contains(' '),
        !":describe"@.contains(' '),
        !":help"@.contains(' '),
        ":type"@ != ":describe"@,
        ":type"@ != ":help"@,
        ":describe"@ != ":help"@,
{
    reveal_strlit(":type");
    reveal_strlit(":describe");
    reveal_strlit(":help");
    assert(":type"@.len() != ":describe"@.len());
    assert(":help"@.len() != ":describe"@.len());
    assert(":type"@[1] != ":help"@[1]);
}

/// Where `:type` answers with a line, `:describe` answers with the same line first and does not
/// complain. It complains exactly where the name has neither a type nor documentation, and then as
/// `:type` does. Documentation stands last, behind an empty line; without it the answers are the
/// same.
pub proof fn describe_goes_with_type(s: SessionV, argument: Text)
    ensures
        ({
            let name = trimmed(argument);
            let t = command_reply(s, command_line(":type"@, argument));
            let d = command_reply(s, command_line(":describe"@, argument));
            &&& t.out.len() + t.err.len() == 1
            &&& t.out.len() > 0 ==> d.out.len() > 0 && d.out[0] == t.out[0] && d.err.len() == 0
            &&& d.err.len() > 0 <==> t.out.len() == 0 && !s.docs.contains_key(name)
            &&& d.err.len() > 0 ==> d == t && d.err == seq!["not found: "@ + name]
            &&& !s.docs.contains_key(name) ==> d == t
            &&& s.docs.contains_key(name) ==> {
                &&& d.out.len() == 3
                &&& d.out[1].len() == 0
                &&& d.out[2] == s.docs[name]@
                &&& d.err.len() == 0
                &&& t.out.len() == 0 ==> d.out[0] == name + " : "@ + "<unknown type>"@
            }
        }),
{
    commands_have_no_space();
    command_is_split(":type"@, argument);
    command_is_split(":describe"@, argument);
}

/// Whether scope `k` is the innermost one that has a name.
pub open spec fn innermost_with(env: Seq<Map<Text, ThunkId>>, k: int, name: Text) -> bool {
    &&& 0 <= k < env.len()
    &&& env[k].contains_key(name)
    &&& forall|j: int| k < j < env.len() ==> !(#[trigger] env[j]).contains_key(name)
}

/// Whether entry `i` is the last one for a region.
pub open spec fn last_for(types: Seq<TypeV>, i: int, start: usize, end: usize) -> bool {
    &&& 0 <= i < types.len()
    &&& types[i].start == start && types[i].end == end
    &&& forall|j: int|
        i < j < types.len() ==> !((#[trigger] types[j]).start == start && types[j].end == end)
}

/// Whether there is no entry for a region.
pub open spec fn none_for(types: Seq<TypeV>, start: usize, end: usize) -> bool {
    forall|j: int|
        0 <= j < types.len() ==> !((#[trigger] types[j]).start == start && types[j].end == end)
}

/// A name means what the innermost scope that has it says, and nothing where no scope has it.
pub proof fn innermost_scope_decides(env: Seq<Map<Text, ThunkId>>, k: int, name: Text)
    ensures
        innermost_with(env, k, name) ==> lookup(env, name) == Some(env[k][name]),
        (forall|j: int| 0 <= j < env.len() ==> !(#[trigger] env[j]).contains_key(name))
            ==> lookup(env, name) is None,
    decreases env.len(),
{
    if env.len() > 0 {
        let less = env.drop_last();
        innermost_scope_decides(less, k, name);
        assert(env.last() == env[env.len() - 1]);
        assert forall|j: int| 0 <= j < less.len() implies #[trigger] less[j] == env[j] by {}
        if innermost_with(env, k, name) && k < env.len() - 1 {
            assert(!env[env.len() - 1].contains_key(name));
            assert forall|j: int| k < j < less.len() implies !(#[trigger] less[j]).contains_key(
                name,
            ) by {
                assert(!env[j].contains_key(name));
            }
            assert(innermost_with(less, k, name));
        }
        if forall|j: int| 0 <= j < env.len() ==> !(#[trigger] env[j]).contains_key(name) {
            assert forall|j: int| 0 <= j < less.len() implies !(#[trigger] less[j]).contains_key(
                name,
            ) by {
                assert(!env[j].contains_key(name));
            }
        }
    }
}

/// The type of a region is the one that was learnt last.
pub proof fn last_type_counts(types: Seq<TypeV>, i: int, start: usize, end: usize)
    ensures
        last_for(types, i, start, end) ==> type_of(types, start, end) == Some(types[i].ty),
        none_for(types, start, end) ==> type_of(types, start, end) is None,
    decreases types.len(),
{
    if types.len() > 0 {
        let less = types.drop_last();
        last_type_counts(less, i, start, end);
        assert(types.last() == types[types.len() - 1]);
        assert forall|j: int| 0 <= j < less.len() implies #[trigger] less[j] == types[j] by {}
        if last_for(types, i, start, end) && i < types.len() - 1 {
            assert(!(types[types.len() - 1].start == start && types[types.len() - 1].end == end));
            assert forall|j: int| i < j < less.len() implies !((#[trigger] less[j]).start == start
                && less[j].end == end) by {
                assert(!(types[j].start == start && types[j].end == end));
            }
            assert(last_for(less, i, start, end));
        }
        if none_for(types, start, end) {
            assert(!(types[types.len() - 1].start == start && types[types.len() - 1].end == end));
            assert forall|j: int| 0 <= j < less.len() implies !((#[trigger] less[j]).start == start
                && less[j].end == end) by {
                assert(!(types[j].start == start && types[j].end == end));
            }
        }
    }
}

/// `:type` shows the type that was learnt last for the region of what the name stands for in the
/// innermost scope that has it, and says that the name is not found where there is none.
pub proof fn type_shows_the_last_learnt(s: SessionV, argument: Text, k: int, i: int)
    ensures
        ({
            let name = trimmed(argument);
            let id = s.env[k][name];
            let thunk = s.arena[id.index as int];
            let shown = command_reply(s, command_line(":type"@, argument));
            let unknown = ReplyV { out: Seq::empty(), err: seq!["not found: "@ + name] };
            &&& innermost_with(s.env, k, name) && id.index < s.arena.len() && last_for(
                s.types,
                i,
                thunk.start,
                thunk.end,
            ) ==> shown == (ReplyV { out: seq![name + " : "@ + s.types[i].ty], err: Seq::empty() })
            &&& innermost_with(s.env, k, name) && id.index < s.arena.len() && none_for(
                s.types,
                thunk.start,
                thunk.end,
            ) ==> shown == unknown
            &&& (forall|j: int| 0 <= j < s.env.len() ==> !(#[trigger] s.env[j]).contains_key(name))
                ==> shown == unknown
        }),
{
    let name = trimmed(argument);
    let thunk = s.arena[s.env[k][name].index as int];
    commands_have_no_space();
    command_is_split(":type"@, argument);
    innermost_scope_decides(s.env, k, name);
    last_type_counts(s.types, i, thunk.start, thunk.end);
}

/// `:describe` and `:type` ask for a name where they have none; `:help` answers the same with any
/// argument and in any session, and other commands are refused. No command both answers and
/// complains.
pub proof fn other_commands(s: SessionV, t: SessionV, word: Text, argument: Text)
    requires
        !word.contains(' '),
    ensures
        command_reply(s, ":type"@) == (ReplyV {
            out: Seq::empty(),
            err: seq!["usage: :type <name>"@],
        }),
        command_reply(s, ":describe"@) == (ReplyV {
            out: Seq::empty(),
            err: seq!["usage: :describe <name>"@],
        }),
        command_reply(s, ":help"@) == command_reply(t, command_line(":help"@, argument)),
        command_reply(s, ":help"@).err.len() == 0,
        command_reply(s, ":help"@).out == seq![
            "REPL meta-commands:"@,
            "  :describe <name>  Show type and documentation for a binding"@,
            "  :type <name>      Show type signature only"@,
            "  :help             Show this help message"@,
        ],
        word != ":type"@ && word != ":describe"@ && word != ":help"@ ==> command_reply(
            s,
            command_line(word, argument),
        ) == command_reply(t, word) && command_reply(t, word) == (ReplyV {
            out: Seq::empty(),
            err: seq!["Unknown command: "@ + word, "Type :help for available commands."@],
        }),
{
    commands_have_no_space();
    command_is_split(":type"@, argument);
    command_is_split(":describe"@, argument);
    command_is_split(":help"@, argument);
    command_is_split(word, argument);
}

proof fn docs_are_learnt(docs: Map<Text, String>, more: Seq<(String, String)>, name: Text, i: int)
    ensures
        ({
            let after = with_docs(docs, more);
            let told = |j: int| 0 <= j < more.len() && more[j].0@ == name;
            &&& told(i) && (forall|j: int| i < j < more.len() ==> (#[trigger] more[j]).0@ != name)
                ==> after.contains_key(name) && after[name] == more[i].1
            &&& (forall|j: int| 0 <= j < more.len() ==> (#[trigger] more[j]).0@ != name) ==> {
                &&& after.contains_key(name) <==> docs.contains_key(name)
                &&& docs.contains_key(name) ==> after[name] == docs[name]
            }
        }),
    decreases more.len(),
{
    if more.len() > 0 {
        let less = more.drop_last();
        docs_are_learnt(docs, less, name, i);
        assert(more.last() == more[more.len() - 1]);
        assert forall|j: int| 0 <= j < less.len() implies #[trigger] less[j] == more[j] by {}
        if forall|j: int| i < j < more.len() ==> (#[trigger] more[j]).0@ != name {
            assert forall|j: int| i < j < less.len() && 0 <= i implies (#[trigger] less[j]).0@
                != name by {
                assert(more[j].0@ != name);
            }
        }
        if forall|j: int| 0 <= j < more.len() ==> (#[trigger] more[j]).0@ != name {
            assert forall|j: int| 0 <= j < less.len() implies (#[trigger] less[j]).0@ != name by {
                assert(more[j].0@ != name);
            }
        }
    }
}

/// An input that cannot be read teaches nothing. Any other input teaches its types, behind those
/// that are known, and its documentation, the last for a name; whether it succeeds or not.
pub proof fn inputs_teach(s: SessionV, input: Text, e: Evaluation, name: Text, i: int)
    ensures
        input_read(input) is Err ==> evaluated(s, input, e).0 == s,
        input_read(input) is Ok ==> {
            let after = evaluated(s, input, e).0;
            let told = |j: int| 0 <= j < e.docs@.len() && e.docs@[j].0@ == name;
            &&& after.types.len() == s.types.len() + e.types@.len()
            &&& after.types.take(s.types.len() as int) == s.types
            &&& forall|j: int|
                0 <= j < e.types@.len() ==> (#[trigger] after.types[s.types.len() + j]).start
                    == e.types@[j].start && after.types[s.types.len() + j].end == e.types@[j].end
                    && after.types[s.types.len() + j].ty == e.types@[j].ty@
            &&& told(i) && (forall|j: int|
                i < j < e.docs@.len() ==> (#[trigger] e.docs@[j]).0@ != name)
                ==> after.docs.contains_key(name) && after.docs[name] == e.docs@[i].1
            &&& (forall|j: int| 0 <= j < e.docs@.len() ==> (#[trigger] e.docs@[j]).0@ != name) ==> {
                &&& after.docs.contains_key(name) <==> s.docs.contains_key(name)
                &&& s.docs.contains_key(name) ==> after.docs[name] == s.docs[name]
            }
        },
{
    broadcast use crate::model::group_models;

    docs_are_learnt(s.docs, e.docs@, name, i);
    if input_read(input) is Ok {
        let after = evaluated(s, input, e).0;
        assert(after.types.take(s.types.len() as int) =~= s.types);
    }
}

proof fn entries_bind(entries: Seq<(Key, ThunkId)>, name: Text, i: int)
    requires
        0 <= i < entries.len(),
        names(entries[i], name),
        forall|j: int| i < j < entries.len() ==> !names(#[trigger] entries[j], name),
    ensures
        with_entries(Map::empty(), entries).contains_key(name),
        with_entries(Map::empty(), entries)[name] == entries[i].1,
    decreases entries.len(),
{
    let less = entries.drop_last();
    assert(entries.last() == entries[entries.len() - 1]);
    if i < entries.len() - 1 {
        assert(!names(entries[entries.len() - 1], name));
        assert forall|j: int| i < j < less.len() implies !names(#[trigger] less[j], name) by {
            assert(!names(entries[j], name));
        }
        entries_bind(less, name, i);
    }
}

proof fn entries_leave(entries: Seq<(Key, ThunkId)>, name: Text)
    requires
        forall|j: int| 0 <= j < entries.len() ==> !names(#[trigger] entries[j], name),
    ensures
        !with_entries(Map::empty(), entries).contains_key(name),
    decreases entries.len(),
{
    if entries.len() > 0 {
        let less = entries.drop_last();
        assert(entries.last() == entries[entries.len() - 1]);
        assert(!names(entries[entries.len() - 1], name));
        assert forall|j: int| 0 <= j < less.len() implies !names(#[trigger] less[j], name) by {
            assert(!names(entries[j], name));
        }
        entries_leave(less, name);
    }
}

/// Whether an entry of a result has a name.
pub open spec fn names(entry: (Key, ThunkId), name: Text) -> bool {
    match entry.0 {
        Key::Name(n) => n@ == name,
        Key::Index(_) => false,
    }
}

/// What an input that succeeds does to a name other than `%`: the last entry of its result with
/// that name is what the name means; without such an entry it means what it meant before. The
/// answer is the text of the result, and `%` names the result.
pub proof fn success_binds_the_entries(
    s: SessionV,
    input: Text,
    e: Evaluation,
    name: Text,
    i: int,
)
    requires
        name != "%"@,
        evaluated(s, input, e).1 is Ok,
    ensures
        e.outcome is Ok,
        evaluated(s, input, e).1->Ok_0 == e.outcome->Ok_0.display@,
        evaluated(s, input, e).0.prev_result == e.outcome->Ok_0.result,
        lookup(evaluated(s, input, e).0.env, "%"@) == Some(e.outcome->Ok_0.result),
        evaluated(s, input, e).0.arena == s.arena,
        ({
            let after = evaluated(s, input, e).0;
            match e.outcome->Ok_0.entries {
                None => lookup(after.env, name) == lookup(s.env, name),
                Some(entries) => {
                    &&& 0 <= i < entries@.len() && names(entries@[i], name) && (forall|j: int|
                        i < j < entries@.len() ==> !names(#[trigger] entries@[j], name)) ==> lookup(
                        after.env,
                        name,
                    ) == Some(entries@[i].1)
                    &&& (forall|j: int|
                        0 <= j < entries@.len() ==> !names(#[trigger] entries@[j], name))
                        ==> lookup(after.env, name) == lookup(s.env, name)
                },
            }
        }),
{
    let after = evaluated(s, input, e).0;
    let done = e.outcome->Ok_0;
    match done.entries {
        None => {
            if s.env.len() > 0 {
                assert(after.env.drop_last() =~= s.env.drop_last());
            } else {
                assert(after.env.drop_last() =~= Seq::empty());
                assert(lookup(after.env.drop_last(), name) is None);
            }
        },
        Some(entries) => {
            assert(after.env.drop_last() =~= s.env);
            if 0 <= i < entries@.len() && names(entries@[i], name) && (forall|j: int|
                i < j < entries@.len() ==> !names(#[trigger] entries@[j], name)) {
                entries_bind(entries@, name, i);
            }
            if forall|j: int| 0 <= j < entries@.len() ==> !names(#[trigger] entries@[j], name) {
                entries_leave(entries@, name);
            }
        },
    }
}

/// A session starts with the empty dict as its last result, which `%` names; every other name means
/// what it means in the scopes that the session is given, and nothing has a type or a description.
pub proof fn session_starts_with_nothing(
    env: Seq<Map<Text, ThunkId>>,
    arena: Seq<ThunkV>,
    name: Text,
)
    requires
        arena.len() < usize::MAX,
    ensures
        ({
            let s = new_session(env, arena);
            &&& lookup(s.env, "%"@) == Some(s.prev_result)
            &&& s.prev_result.index < s.arena.len()
            &&& s.arena[s.prev_result.index as int].value == ValueV::Dict(Seq::empty())
            &&& name != "%"@ ==> lookup(s.env, name) == lookup(env, name)
            &&& forall|k: int| 0 <= k < arena.len() ==> #[trigger] s.arena[k] == arena[k]
            &&& typed(s, name).out.len() == 0
            &&& described(s, name).out.len() == 0
        }),
{
    let s = new_session(env, arena);
    assert(s.env.drop_last() =~= env);
}

} // verus!
