//! What the metadata of a class says: each entry is known by its key, wherever it stands.
use crate::close::{class_metadata, closed, constraints, metadata_of, with_metadata};
use crate::frame::FrameV;
use crate::model::{EntryV, ExprV, NodeV, SpanV, Text};
use crate::place::names_of;
use crate::state::StateV;
use vstd::prelude::*;

verus! {

/// The name that an expression is, as a word or as a string.
pub open spec fn spells(n: NodeV, name: Text) -> bool {
    match n.expr {
        ExprV::StringLiteral { content, .. } => content == name,
        ExprV::VarRef { name: word, .. } => word == name,
        _ => false,
    }
}

/// Whether an entry has a name for its key.
pub open spec fn goes_by(e: EntryV, name: Text) -> bool {
    e.key matches Some(key) && spells(key, name)
}

/// Whether only one entry has a name for its key.
pub open spec fn only_one(entries: Seq<EntryV>, k: int, name: Text) -> bool {
    &&& 0 <= k < entries.len()
    &&& goes_by(entries[k], name)
    &&& forall|j: int| 0 <= j < entries.len() && j != k ==> !goes_by(#[trigger] entries[j], name)
}

/// Whether no entry has a name for its key.
pub open spec fn no_one(entries: Seq<EntryV>, name: Text) -> bool {
    forall|j: int| 0 <= j < entries.len() ==> !goes_by(#[trigger] entries[j], name)
}

proof fn headings_differ()
    ensures
        "determines"@.len() == 10,
        "determines"@[0] == 'd',
        "resolver"@.len() == 8,
        "injective"@.len() == 9,
        "superclasses"@.len() == 12,
        "structural"@.len() == 10,
        "structural"@[0] == 's',
{
    reveal_strlit("determines");
    reveal_strlit("resolver");
    reveal_strlit("injective");
    reveal_strlit("superclasses");
    reveal_strlit("structural");
}

/// Metadata says nothing of what no entry has for its key.
pub proof fn absent_metadata_is_empty(entries: Seq<EntryV>)
    ensures
        no_one(entries, "determines"@) ==> metadata_of(entries).determines.len() == 0,
        no_one(entries, "resolver"@) ==> metadata_of(entries).resolver is None,
        no_one(entries, "injective"@) ==> !metadata_of(entries).injective,
        no_one(entries, "superclasses"@) ==> metadata_of(entries).superclasses.len() == 0,
        no_one(entries, "structural"@) ==> metadata_of(entries).structural.len() == 0,
    decreases entries.len(),
{
    headings_differ();
    if entries.len() > 0 {
        let front = entries.drop_last();
        let e = entries.last();
        absent_metadata_is_empty(front);
        front_has_no_one(entries, "determines"@);
        front_has_no_one(entries, "resolver"@);
        front_has_no_one(entries, "injective"@);
        front_has_no_one(entries, "superclasses"@);
        front_has_no_one(entries, "structural"@);
        assert(e == entries[entries.len() - 1]);
    }
}

proof fn front_has_no_one(entries: Seq<EntryV>, name: Text)
    requires
        entries.len() > 0,
    ensures
        no_one(entries, name) ==> no_one(entries.drop_last(), name) && !goes_by(
            entries.last(),
            name,
        ),
        forall|k: int|
            only_one(entries, k, name) ==> if k == entries.len() - 1 {
                no_one(entries.drop_last(), name)
            } else {
                only_one(entries.drop_last(), k, name) && !goes_by(entries.last(), name)
            },
{
    let front = entries.drop_last();
    assert forall|k: int| only_one(entries, k, name) implies if k == entries.len() - 1 {
        no_one(front, name)
    } else {
        only_one(front, k, name) && !goes_by(entries.last(), name)
    } by {
        assert(forall|j: int| 0 <= j < front.len() ==> front[j] == entries[j]);
    }
    if no_one(entries, name) {
        assert(forall|j: int| 0 <= j < front.len() ==> front[j] == entries[j]);
        assert(!goes_by(entries[entries.len() - 1], name));
    }
}

/// Whether a constraint is a call of a class with names.
pub open spec fn constrains(n: NodeV, class: Text, names: Seq<Text>) -> bool {
    match n.expr {
        ExprV::Call { func, args, .. } => {
            &&& func.expr matches ExprV::VarRef { name, .. } && name == class
            &&& args.len() == names.len()
            &&& forall|i: int|
                0 <= i < args.len() ==> ((#[trigger] args[i]).expr matches ExprV::VarRef {
                    name,
                    ..
                } && name == names[i])
        },
        _ => false,
    }
}

proof fn names_are_taken(args: Seq<NodeV>, names: Seq<Text>)
    requires
        args.len() == names.len(),
        forall|i: int|
            0 <= i < args.len() ==> ((#[trigger] args[i]).expr matches ExprV::VarRef { name, .. }
                && name == names[i]),
    ensures
        names_of(args) == names,
    decreases args.len(),
{
    if args.len() > 0 {
        let front = args.drop_last();
        assert(args.last() == args[args.len() - 1]);
        assert forall|i: int| 0 <= i < front.len() implies ((#[trigger] front[i]).expr
            matches ExprV::VarRef { name, .. } && name == names.drop_last()[i]) by {
            assert(front[i] == args[i]);
        }
        names_are_taken(front, names.drop_last());
        assert(names_of(args) =~= names);
    } else {
        assert(names_of(args) =~= names);
    }
}

/// Constraints that are calls of classes with names are kept in their order.
pub proof fn constraints_are_kept(entries: Seq<EntryV>, said: Seq<(Text, Seq<Text>)>)
    requires
        entries.len() == said.len(),
        forall|i: int|
            0 <= i < entries.len() ==> constrains(
                (#[trigger] entries[i]).value,
                said[i].0,
                said[i].1,
            ),
    ensures
        constraints(entries) == said,
    decreases entries.len(),
{
    if entries.len() > 0 {
        let front = entries.drop_last();
        let last = entries[entries.len() - 1];
        let told = said[entries.len() - 1];
        assert(constrains(last.value, told.0, told.1));
        match last.value.expr {
            ExprV::Call { args, .. } => {
                names_are_taken(args, told.1);
            },
            _ => {},
        }
        assert forall|i: int| 0 <= i < front.len() implies constrains(
            (#[trigger] front[i]).value,
            said.drop_last()[i].0,
            said.drop_last()[i].1,
        ) by {
            assert(front[i] == entries[i]);
        }
        constraints_are_kept(front, said.drop_last());
        assert(constraints(entries) =~= said);
    } else {
        assert(constraints(entries) =~= said);
    }
}

/// Metadata is told by its keys, wherever the entries stand: what the class determines are the
/// values of a dict in their order, the resolver is a value, it is injective just where a number
/// other than zero says so, the superclasses are the constraints of a dict, and what it is
/// structural in is a name.
pub proof fn metadata_is_told_by_keys(entries: Seq<EntryV>, k: int)
    requires
        0 <= k < entries.len(),
    ensures
        ({
            let m = metadata_of(entries);
            let v = entries[k].value;
            &&& only_one(entries, k, "resolver"@) ==> m.resolver == Some(v)
            &&& only_one(entries, k, "injective"@) ==> (v.expr matches ExprV::Int(n)
                ==> m.injective == (n != 0))
            &&& only_one(entries, k, "structural"@) ==> forall|name: Text|
                #[trigger] spells(v, name) ==> m.structural == name
            &&& only_one(entries, k, "determines"@) ==> (v.expr matches ExprV::Dict(es)
                ==> m.determines.len() == es.len() && forall|i: int|
                0 <= i < es.len() ==> #[trigger] m.determines[i] == es[i].value)
            &&& only_one(entries, k, "superclasses"@) ==> (v.expr matches ExprV::Dict(es)
                ==> m.superclasses == constraints(es))
        }),
    decreases entries.len(),
{
    headings_differ();
    let front = entries.drop_last();
    let n = entries.len() - 1;
    front_has_no_one(entries, "determines"@);
    front_has_no_one(entries, "resolver"@);
    front_has_no_one(entries, "injective"@);
    front_has_no_one(entries, "superclasses"@);
    front_has_no_one(entries, "structural"@);
    assert(metadata_of(entries) == with_metadata(metadata_of(front), entries.last()));
    if k == n {
        absent_metadata_is_empty(front);
        match entries[k].value.expr {
            ExprV::Dict(es) => {
                assert(metadata_of(front).superclasses + constraints(es) =~= constraints(es)
                    || metadata_of(front).superclasses.len() > 0);
            },
            _ => {},
        }
    } else {
        assert(front[k] == entries[k]);
        metadata_is_told_by_keys(front, k);
    }
}

/// A class that is closed outside of every form is an item with its parameters, its methods and what
/// its metadata says.
pub proof fn closed_class_has_its_metadata(s: StateV, f: FrameV, end: SpanV)
    requires
        s.stack.len() == 0,
        f is ClassDecl,
        f->ClassDecl_pending_key is None,
    ensures
        ({
            let t = closed(s, f, end);
            let m = class_metadata(f->ClassDecl_structural_metadata);
            let decl = t.items.last()->Decl_0;
            &&& t.items.len() == s.items.len() + 1
            &&& t.items.drop_last() == s.items
            &&& t.items.last() is Decl
            &&& decl is ClassDecl
            &&& decl->ClassDecl_params == f->ClassDecl_params
            &&& decl->ClassDecl_methods.len() == f->ClassDecl_methods.len()
            &&& decl->ClassDecl_determines == m.determines
            &&& decl->ClassDecl_superclasses == m.superclasses
            &&& decl->ClassDecl_resolver_injective == m.injective
            &&& decl->ClassDecl_structural == m.structural
            &&& m.resolver matches Some(r) ==> (decl->ClassDecl_resolver matches Some(x) && x == r)
            &&& m.resolver is None ==> decl->ClassDecl_resolver is None
            &&& t.diagnostics == s.diagnostics
        }),
        f->ClassDecl_structural_metadata matches Some(n) ==> (n.expr matches ExprV::Dict(entries)
            ==> class_metadata(f->ClassDecl_structural_metadata) == metadata_of(entries)),
{
    assert(closed(s, f, end).items.drop_last() =~= s.items);
}

} // verus!
