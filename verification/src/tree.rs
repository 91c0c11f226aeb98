//! The tree of the compact syntax: expressions with byte positions, and their models.
use crate::ast::{clone_annotation, clone_strings, Annotation};
use crate::model::{ann_view, AnnV, Text};
use vstd::prelude::*;

verus! {

/// A place of a source: a byte offset, a line and a column.
#[derive(Debug, Clone, Copy, PartialEq, Eq, Structural)]
pub struct Position {
    pub offset: usize,
    pub line: usize,
    pub column: usize,
}

/// A region of a source.
#[derive(Debug, Clone, Copy, PartialEq, Eq, Structural)]
pub struct Region {
    pub start: Position,
    pub end: Position,
}

/// A value with its region.
#[derive(Debug, PartialEq)]
pub struct Located<T> {
    pub node: T,
    pub span: Region,
}

/// An expression.
#[allow(inconsistent_fields)]
#[derive(Debug, PartialEq)]
pub enum Expr {
    Int(i64),
    /// A decimal literal, held as it is written.
    Float(String),
    Bool(bool),
    Str(String),
    /// `$name`
    VarRef(String),
    /// `[key: value ...]`
    Dict(Vec<Located<Entry>>),
    /// `[call func arg name: value]`
    Call {
        func: Box<Located<Expr>>,
        args: Vec<Located<Expr>>,
        named_args: Vec<Located<NamedArg>>,
    },
    /// `[fn body]`
    Fn {
        return_ann: Option<Located<Annotation>>,
        params: Vec<String>,
        body: Box<Located<Expr>>,
        desugared: bool,
    },
    /// `[type expr]`
    TypeAlias(Box<Located<Expr>>),
    /// `[@Type expr]`
    TypeAssert { annotation: Located<Annotation>, expr: Box<Located<Expr>> },
    /// `expr[key]`
    BracketAccess { expr: Box<Located<Expr>>, key: Box<Located<Expr>> },
}

/// An entry of a dict.
#[derive(Debug, PartialEq)]
pub struct Entry {
    pub key: Option<Located<Expr>>,
    pub value: Located<Expr>,
}

/// A named argument of a call.
#[derive(Debug, PartialEq)]
pub struct NamedArg {
    pub name: String,
    pub value: Located<Expr>,
}

/// A section of a file.
#[derive(Debug, PartialEq)]
pub struct Document {
    pub expressions: Vec<Located<Expr>>,
}

/// A parsed file.
#[derive(Debug, PartialEq)]
pub struct File {
    pub documents: Vec<Located<Document>>,
}

pub struct LeafV {
    pub expr: TreeV,
    pub span: Region,
}

#[allow(inconsistent_fields)]
pub enum TreeV {
    Int(i64),
    Float(Text),
    Bool(bool),
    Str(Text),
    VarRef(Text),
    Dict(Seq<PairV>),
    Call { func: Box<LeafV>, args: Seq<LeafV>, named_args: Seq<NamedV> },
    Fn { return_ann: Option<NoteV>, params: Seq<Text>, body: Box<LeafV>, desugared: bool },
    TypeAlias(Box<LeafV>),
    TypeAssert { annotation: NoteV, expr: Box<LeafV> },
    BracketAccess { expr: Box<LeafV>, key: Box<LeafV> },
}

/// An entry of a dict, with its region.
pub struct PairV {
    pub key: Option<LeafV>,
    pub value: LeafV,
    pub span: Region,
}

/// An entry of a dict under construction.
pub struct BarePairV {
    pub key: Option<LeafV>,
    pub value: LeafV,
}

pub struct NamedV {
    pub name: Text,
    pub value: LeafV,
    pub span: Region,
}

/// An annotation with its region.
pub struct NoteV {
    pub ann: AnnV,
    pub span: Region,
}

pub struct SheetV {
    pub expressions: Seq<LeafV>,
    pub span: Region,
}

/// The model of an expression.
pub open spec fn tree_view(e: Expr) -> TreeV
    decreases e,
{
    match e {
        Expr::Int(n) => TreeV::Int(n),
        Expr::Float(s) => TreeV::Float(s@),
        Expr::Bool(b) => TreeV::Bool(b),
        Expr::Str(s) => TreeV::Str(s@),
        Expr::VarRef(s) => TreeV::VarRef(s@),
        Expr::Dict(v) => TreeV::Dict(
            Seq::new(
                v@.len(),
                |i: int|
                    if 0 <= i < v@.len() {
                        PairV {
                            key: match v@[i].node.key {
                                Some(k) => Some(LeafV { expr: tree_view(k.node), span: k.span }),
                                None => None,
                            },
                            value: LeafV {
                                expr: tree_view(v@[i].node.value.node),
                                span: v@[i].node.value.span,
                            },
                            span: v@[i].span,
                        }
                    } else {
                        arbitrary()
                    },
            ),
        ),
        Expr::Call { func, args, named_args } => TreeV::Call {
            func: Box::new(LeafV { expr: tree_view(func.node), span: func.span }),
            args: Seq::new(
                args@.len(),
                |i: int|
                    if 0 <= i < args@.len() {
                        LeafV { expr: tree_view(args@[i].node), span: args@[i].span }
                    } else {
                        arbitrary()
                    },
            ),
            named_args: Seq::new(
                named_args@.len(),
                |i: int|
                    if 0 <= i < named_args@.len() {
                        NamedV {
                            name: named_args@[i].node.name@,
                            value: LeafV {
                                expr: tree_view(named_args@[i].node.value.node),
                                span: named_args@[i].node.value.span,
                            },
                            span: named_args@[i].span,
                        }
                    } else {
                        arbitrary()
                    },
            ),
        },
        Expr::Fn { return_ann, params, body, desugared } => TreeV::Fn {
            return_ann: return_ann.deep_view(),
            params: params.deep_view(),
            body: Box::new(LeafV { expr: tree_view(body.node), span: body.span }),
            desugared,
        },
        Expr::TypeAlias(body) => TreeV::TypeAlias(
            Box::new(LeafV { expr: tree_view(body.node), span: body.span }),
        ),
        Expr::TypeAssert { annotation, expr } => TreeV::TypeAssert {
            annotation: annotation.deep_view(),
            expr: Box::new(LeafV { expr: tree_view(expr.node), span: expr.span }),
        },
        Expr::BracketAccess { expr, key } => TreeV::BracketAccess {
            expr: Box::new(LeafV { expr: tree_view(expr.node), span: expr.span }),
            key: Box::new(LeafV { expr: tree_view(key.node), span: key.span }),
        },
    }
}

impl DeepView for Region {
    type V = Region;

    open spec fn deep_view(&self) -> Region {
        *self
    }
}

impl DeepView for Located<Expr> {
    type V = LeafV;

    open spec fn deep_view(&self) -> LeafV {
        LeafV { expr: tree_view(self.node), span: self.span }
    }
}

impl DeepView for Located<Annotation> {
    type V = NoteV;

    open spec fn deep_view(&self) -> NoteV {
        NoteV { ann: ann_view(self.node), span: self.span }
    }
}

impl DeepView for Entry {
    type V = BarePairV;

    open spec fn deep_view(&self) -> BarePairV {
        BarePairV { key: self.key.deep_view(), value: self.value.deep_view() }
    }
}

impl DeepView for Located<Entry> {
    type V = PairV;

    open spec fn deep_view(&self) -> PairV {
        PairV {
            key: self.node.key.deep_view(),
            value: self.node.value.deep_view(),
            span: self.span,
        }
    }
}

impl DeepView for Located<NamedArg> {
    type V = NamedV;

    open spec fn deep_view(&self) -> NamedV {
        NamedV {
            name: self.node.name@,
            value: self.node.value.deep_view(),
            span: self.span,
        }
    }
}

impl DeepView for Located<Document> {
    type V = SheetV;

    open spec fn deep_view(&self) -> SheetV {
        SheetV { expressions: self.node.expressions.deep_view(), span: self.span }
    }
}

/// The lists inside an expression's model are the models of the lists inside it.
pub broadcast proof fn tree_lists(e: Expr)
    ensures
        match e {
            Expr::Dict(v) => #[trigger] tree_view(e) == TreeV::Dict(v.deep_view()),
            Expr::Call { args, named_args, .. } => {
                &&& tree_view(e)->args == args.deep_view()
                &&& tree_view(e)->named_args == named_args.deep_view()
            },
            _ => true,
        },
{
    match e {
        Expr::Dict(v) => {
            assert(tree_view(e)->Dict_0 =~= v.deep_view());
        },
        Expr::Call { args, named_args, .. } => {
            assert(tree_view(e)->args =~= args.deep_view());
            assert(tree_view(e)->named_args =~= named_args.deep_view());
        },
        _ => {},
    }
}

fn copy_note(a: &Located<Annotation>) -> (r: Located<Annotation>)
    ensures
        r.deep_view() == a.deep_view(),
{
    Located { node: clone_annotation(&a.node), span: a.span }
}

/// A copy of an expression.
pub fn copy_expr(e: &Expr) -> (r: Expr)
    ensures
        tree_view(r) == tree_view(*e),
    decreases e,
{
    broadcast use crate::model::group_models;
    broadcast use tree_lists;

    match e {
        Expr::Int(n) => Expr::Int(*n),
        Expr::Float(s) => Expr::Float(s.clone()),
        Expr::Bool(b) => Expr::Bool(*b),
        Expr::Str(s) => Expr::Str(s.clone()),
        Expr::VarRef(s) => Expr::VarRef(s.clone()),
        Expr::Dict(v) => {
            let ghost all = v.deep_view();
            let mut out: Vec<Located<Entry>> = Vec::new();
            let mut i: usize = 0;
            while i < v.len()
                invariant
                    i <= v@.len(),
                    *e == Expr::Dict(*v),
                    all == v.deep_view(),
                    out.deep_view() == all.take(i as int),
                decreases v@.len() - i,
            {
                let ghost before = out.deep_view();
                assert(all[i as int] == v@[i as int].deep_view());
                assert(decreases_to!(*e => e->Dict_0));
                assert(decreases_to!(*v => v@));
                assert(decreases_to!(v@ => v@[i as int]));
                let key: Option<Located<Expr>> = match &v[i].node.key {
                    Some(k) => Some(Located { node: copy_expr(&k.node), span: k.span }),
                    None => None,
                };
                let value: Located<Expr> = Located {
                    node: copy_expr(&v[i].node.value.node),
                    span: v[i].node.value.span,
                };
                let entry: Located<Entry> = Located {
                    node: Entry { key, value },
                    span: v[i].span,
                };
                let ghost one = entry.deep_view();
                assert(one == all[i as int]);
                out.push(entry);
                assert(out.deep_view() == before.push(one));
                i = i + 1;
                assert(out.deep_view() =~= all.take(i as int));
            }
            assert(all.take(i as int) =~= all);
            Expr::Dict(out)
        },
        Expr::Call { func, args, named_args } => {
            let func_copy: Located<Expr> = Located {
                node: copy_expr(&func.node),
                span: func.span,
            };
            let ghost plain = args.deep_view();
            let mut out: Vec<Located<Expr>> = Vec::new();
            let mut i: usize = 0;
            while i < args.len()
                invariant
                    i <= args@.len(),
                    *e == (Expr::Call { func: *func, args: *args, named_args: *named_args }),
                    plain == args.deep_view(),
                    out.deep_view() == plain.take(i as int),
                decreases args@.len() - i,
            {
                let ghost before = out.deep_view();
                assert(plain[i as int] == args@[i as int].deep_view());
                assert(decreases_to!(*e => e->args));
                assert(decreases_to!(*args => args@));
                assert(decreases_to!(args@ => args@[i as int]));
                let arg: Located<Expr> = Located {
                    node: copy_expr(&args[i].node),
                    span: args[i].span,
                };
                let ghost one = arg.deep_view();
                out.push(arg);
                assert(out.deep_view() == before.push(one));
                i = i + 1;
                assert(out.deep_view() =~= plain.take(i as int));
            }
            assert(plain.take(i as int) =~= plain);
            let ghost named = named_args.deep_view();
            let mut names: Vec<Located<NamedArg>> = Vec::new();
            let mut k: usize = 0;
            while k < named_args.len()
                invariant
                    k <= named_args@.len(),
                    *e == (Expr::Call { func: *func, args: *args, named_args: *named_args }),
                    named == named_args.deep_view(),
                    names.deep_view() == named.take(k as int),
                decreases named_args@.len() - k,
            {
                let ghost before = names.deep_view();
                assert(named[k as int] == named_args@[k as int].deep_view());
                assert(decreases_to!(*e => e->named_args));
                assert(decreases_to!(*named_args => named_args@));
                assert(decreases_to!(named_args@ => named_args@[k as int]));
                let value: Located<Expr> = Located {
                    node: copy_expr(&named_args[k].node.value.node),
                    span: named_args[k].node.value.span,
                };
                let arg: Located<NamedArg> = Located {
                    node: NamedArg { name: named_args[k].node.name.clone(), value },
                    span: named_args[k].span,
                };
                let ghost one = arg.deep_view();
                names.push(arg);
                assert(names.deep_view() == before.push(one));
                k = k + 1;
                assert(names.deep_view() =~= named.take(k as int));
            }
            assert(named.take(k as int) =~= named);
            Expr::Call { func: Box::new(func_copy), args: out, named_args: names }
        },
        Expr::Fn { return_ann, params, body, desugared } => {
            let body_copy: Located<Expr> = Located {
                node: copy_expr(&body.node),
                span: body.span,
            };
            let ann: Option<Located<Annotation>> = match return_ann {
                Some(a) => Some(copy_note(a)),
                None => None,
            };
            Expr::Fn {
                return_ann: ann,
                params: clone_strings(params),
                body: Box::new(body_copy),
                desugared: *desugared,
            }
        },
        Expr::TypeAlias(body) => {
            Expr::TypeAlias(Box::new(Located { node: copy_expr(&body.node), span: body.span }))
        },
        Expr::TypeAssert { annotation, expr } => {
            let inner: Located<Expr> = Located { node: copy_expr(&expr.node), span: expr.span };
            Expr::TypeAssert { annotation: copy_note(annotation), expr: Box::new(inner) }
        },
        Expr::BracketAccess { expr, key } => {
            let target: Located<Expr> = Located { node: copy_expr(&expr.node), span: expr.span };
            let at: Located<Expr> = Located { node: copy_expr(&key.node), span: key.span };
            Expr::BracketAccess { expr: Box::new(target), key: Box::new(at) }
        },
    }
}

impl Clone for Located<Expr> {
    fn clone(&self) -> (r: Located<Expr>)
        ensures
            r.deep_view() == self.deep_view(),
    {
        Located { node: copy_expr(&self.node), span: self.span }
    }
}

/// A copy of a section.
pub fn copy_document(d: &Located<Document>) -> (r: Located<Document>)
    ensures
        r.deep_view() == d.deep_view(),
{
    broadcast use crate::model::group_models;

    let ghost all = d.node.expressions.deep_view();
    let mut out: Vec<Located<Expr>> = Vec::new();
    let mut i: usize = 0;
    while i < d.node.expressions.len()
        invariant
            i <= d.node.expressions@.len(),
            all == d.node.expressions.deep_view(),
            out.deep_view() == all.take(i as int),
        decreases d.node.expressions@.len() - i,
    {
        let ghost before = out.deep_view();
        assert(all[i as int] == d.node.expressions@[i as int].deep_view());
        let e: Located<Expr> = d.node.expressions[i].clone();
        let ghost one = e.deep_view();
        out.push(e);
        assert(out.deep_view() == before.push(one));
        i = i + 1;
        assert(out.deep_view() =~= all.take(i as int));
    }
    assert(all.take(i as int) =~= all);
    Located { node: Document { expressions: out }, span: d.span }
}

impl Clone for Located<File> {
    fn clone(&self) -> (r: Located<File>)
        ensures
            r.node.documents.deep_view() == self.node.documents.deep_view(),
            r.span == self.span,
    {
        broadcast use crate::model::group_models;

        let ghost all = self.node.documents.deep_view();
        let mut documents: Vec<Located<Document>> = Vec::new();
        let mut i: usize = 0;
        while i < self.node.documents.len()
            invariant
                i <= self.node.documents@.len(),
                all == self.node.documents.deep_view(),
                documents.deep_view() == all.take(i as int),
            decreases self.node.documents@.len() - i,
        {
            let ghost before = documents.deep_view();
            assert(all[i as int] == self.node.documents@[i as int].deep_view());
            let d: Located<Document> = copy_document(&self.node.documents[i]);
            let ghost one = d.deep_view();
            documents.push(d);
            assert(documents.deep_view() == before.push(one));
            i = i + 1;
            assert(documents.deep_view() =~= all.take(i as int));
        }
        assert(all.take(i as int) =~= all);
        Located { node: File { documents }, span: self.span }
    }
}

} // verus!
