//! Values of the evaluator and the arena that holds them.
use crate::header::entry_put;
use crate::model::Text;
use indexmap::IndexMap;
use vstd::prelude::*;

verus! {

/// The place of a value in the arena.
#[derive(Debug, Clone, Copy, PartialEq, Eq, Structural)]
pub struct ThunkId {
    pub index: usize,
}

/// A value. The values inside a dict or a variant are in the arena.
#[derive(Debug, PartialEq)]
pub enum Value {
    Int(i64),
    Str(String),
    Dict(IndexMap<String, ThunkId>),
    Variant { tag: String, payload: Option<ThunkId> },
}

pub enum ValueV {
    Int(i64),
    Str(Text),
    Dict(Seq<(Text, int)>),
    Variant { tag: Text, payload: Option<int> },
}

/// The entries of a dict, in iteration order.
pub uninterp spec fn dict_entries(d: IndexMap<String, ThunkId>) -> Seq<(Text, int)>;

/// `IndexMap::new` makes a dict without entries.
#[verifier::external_body]
pub(crate) fn new_dict() -> (d: IndexMap<String, ThunkId>)
    ensures
        dict_entries(d) == Seq::<(Text, int)>::empty(),
{
    IndexMap::new()
}

/// `IndexMap::insert` replaces the value of a key that is present, in its place, and otherwise
/// appends the key with its value.
#[verifier::external_body]
pub(crate) fn dict_insert(d: &mut IndexMap<String, ThunkId>, key: String, id: ThunkId)
    ensures
        dict_entries(*final(d)) == entry_put(dict_entries(*old(d)), key@, id.index as int),
{
    d.insert(key, id);
}

impl DeepView for ThunkId {
    type V = int;

    open spec fn deep_view(&self) -> int {
        self.index as int
    }
}

impl DeepView for Value {
    type V = ValueV;

    open spec fn deep_view(&self) -> ValueV {
        match *self {
            Value::Int(n) => ValueV::Int(n),
            Value::Str(s) => ValueV::Str(s@),
            Value::Dict(d) => ValueV::Dict(dict_entries(d)),
            Value::Variant { tag, payload } => ValueV::Variant {
                tag: tag@,
                payload: payload.deep_view(),
            },
        }
    }
}

/// A value with the region of the source that it comes from, in characters.
#[derive(Debug, PartialEq)]
pub struct Thunk {
    pub value: Value,
    pub start: usize,
    pub end: usize,
}

pub struct ThunkV {
    pub value: ValueV,
    pub start: usize,
    pub end: usize,
}

impl DeepView for Thunk {
    type V = ThunkV;

    open spec fn deep_view(&self) -> ThunkV {
        ThunkV { value: self.value.deep_view(), start: self.start, end: self.end }
    }
}

/// A value that comes from no source.
pub open spec fn bare_thunk(value: ValueV) -> ThunkV {
    ThunkV { value, start: 0, end: 0 }
}

/// The arena of an evaluation.
#[derive(Debug, PartialEq)]
pub struct EvalContext {
    pub thunks: Vec<Thunk>,
}

impl DeepView for EvalContext {
    type V = Seq<ThunkV>;

    open spec fn deep_view(&self) -> Seq<ThunkV> {
        self.thunks.deep_view()
    }
}

impl EvalContext {
    /// An empty arena.
    pub fn new() -> (r: EvalContext)
        ensures
            r.deep_view() == Seq::<ThunkV>::empty(),
    {
        broadcast use crate::model::group_models;

        EvalContext { thunks: Vec::new() }
    }

    /// Puts a value into the arena; it gets the next place.
    pub fn alloc_thunk(&mut self, thunk: Thunk) -> (id: ThunkId)
        ensures
            id.index == old(self).deep_view().len(),
            final(self).deep_view() == old(self).deep_view().push(thunk.deep_view()),
    {
        broadcast use crate::model::group_models;

        let index: usize = self.thunks.len();
        self.thunks.push(thunk);
        ThunkId { index }
    }

    /// Puts a value that comes from no source into the arena.
    pub fn alloc_value(&mut self, value: Value) -> (id: ThunkId)
        ensures
            id.index == old(self).deep_view().len(),
            final(self).deep_view() == old(self).deep_view().push(
                bare_thunk(value.deep_view()),
            ),
    {
        self.alloc_thunk(Thunk { value, start: 0, end: 0 })
    }

    /// The value at a place of the arena, where there is one.
    pub fn get_thunk(&self, id: ThunkId) -> (r: Option<&Thunk>)
        ensures
            match r {
                Some(t) => id.index < self.deep_view().len() && t.deep_view()
                    == self.deep_view()[id.index as int],
                None => id.index >= self.deep_view().len(),
            },
    {
        if id.index < self.thunks.len() {
            assert(self.thunks.deep_view()[id.index as int]
                == self.thunks@[id.index as int].deep_view());
            Some(&self.thunks[id.index])
        } else {
            None
        }
    }
}

/// The empty sequence.
pub open spec fn seq_nil() -> ValueV {
    ValueV::Variant { tag: "Seq.Nil"@, payload: None }
}

/// The payload of a sequence with a head and a tail in the arena.
pub open spec fn seq_payload(head: int, tail: int) -> ValueV {
    ValueV::Dict(entry_put(entry_put(Seq::empty(), "head"@, head), "tail"@, tail))
}

/// The empty sequence.
pub fn make_seq_nil() -> (v: Value)
    ensures
        v.deep_view() == seq_nil(),
{
    Value::Variant { tag: "Seq.Nil".to_owned(), payload: None }
}

/// A sequence with a head and a tail in the arena; its payload goes into the arena too.
pub fn make_seq_cons(head: ThunkId, tail: ThunkId, ctx: &mut EvalContext) -> (v: Value)
    ensures
        v.deep_view() == (ValueV::Variant {
            tag: "Seq.Cons"@,
            payload: Some(old(ctx).deep_view().len() as int),
        }),
        final(ctx).deep_view() == old(ctx).deep_view().push(
            bare_thunk(seq_payload(head.index as int, tail.index as int)),
        ),
{
    let mut payload: IndexMap<String, ThunkId> = new_dict();
    dict_insert(&mut payload, "head".to_owned(), head);
    dict_insert(&mut payload, "tail".to_owned(), tail);
    let id: ThunkId = ctx.alloc_value(Value::Dict(payload));
    Value::Variant { tag: "Seq.Cons".to_owned(), payload: Some(id) }
}

} // verus!
