//! The mathematical model of the syntax tree: every tree type has a counterpart made of
//! sequences, and `deep_view` maps a tree to its model.
use crate::ast::{
    Annotation, DotKey, Span, Spanned, SurfaceDeclaration, SurfaceDocument, SurfaceEntry,
    SurfaceExpression, SurfaceItem, SurfaceMatchArm, SurfaceNamedArg, SurfaceNode, SurfaceParam,
};
use crate::header::header_entries;
use std::sync::Arc;
use vstd::prelude::*;

verus! {

/// Text as a sequence of characters.
pub type Text = Seq<char>;

pub struct SpanV {
    pub file: Text,
    pub start_line: u32,
    pub start_col: u32,
    pub end_line: u32,
    pub end_col: u32,
    pub name: Option<Text>,
}

pub struct NodeV {
    pub expr: ExprV,
    pub span: SpanV,
}

pub enum DotKeyV {
    Ident(Text),
    Int(i64),
}

#[allow(inconsistent_fields)]
pub enum ExprV {
    Int(i64),
    U64(u64),
    Float(Text),
    StringLiteral { prefix: Text, delimiter: Text, content: Text },
    VarRef { name: Text, escaped: bool, annotation: Option<Box<AnnotV>> },
    Field { expr: Option<Box<NodeV>>, field: DotKeyV },
    Dict(Seq<EntryV>),
    Call {
        func: Box<NodeV>,
        args: Seq<NodeV>,
        named_args: Seq<NamedArgV>,
        implied: bool,
        pipe_span: Option<SpanV>,
    },
    Fn { return_ann: Option<Box<AnnotV>>, params: Seq<ParamV>, body: Box<NodeV>, desugared: bool },
    Sequential(Seq<NodeV>),
    Quote(Box<NodeV>),
    Unquote(Box<NodeV>),
    UnquoteSplice(Box<NodeV>),
    Match { scrutinee: Box<NodeV>, arms: Seq<ArmV> },
    TypeAssert { annotation: Box<AnnotV>, expr: Box<NodeV> },
    PatternDecl { bindings: Seq<NodeV> },
    LetDecl { bindings: Seq<NodeV> },
    Pipe { lhs: Box<NodeV>, rhs: Box<NodeV>, pipe_span: Option<SpanV> },
    Placeholder(Option<Text>, Option<Box<AnnotV>>),
    Decl(Box<DeclV>),
    Error(SpanV),
}

pub struct EntryV {
    pub key: Option<NodeV>,
    pub value: NodeV,
    pub span: SpanV,
}

pub struct NamedArgV {
    pub name: Text,
    pub value: NodeV,
    pub annotation: Option<AnnotV>,
    pub span: SpanV,
}

pub struct ParamV {
    pub name: Text,
    pub annotation: Option<AnnotV>,
    pub variadic: bool,
    pub span: SpanV,
}

pub struct ArmV {
    pub pattern: NodeV,
    pub let_bindings: Option<NodeV>,
    pub guard: Option<NodeV>,
    pub body: Seq<NodeV>,
}

pub struct AnnotV {
    pub ann: AnnV,
    pub span: SpanV,
}

pub enum AnnV {
    Simple(Text),
    Quote,
    Annotated(Box<AnnV>, Box<AnnV>),
    PropertyDict(Seq<EntryV>),
}

#[allow(inconsistent_fields)]
pub enum DeclV {
    TypeAlias { params: Seq<(Text, Option<AnnotV>)>, body: NodeV },
    ClassDecl {
        name: Text,
        params: Seq<Text>,
        superclasses: Seq<(Text, Seq<Text>)>,
        methods: Seq<EntryV>,
        determines: Seq<NodeV>,
        resolver: Option<NodeV>,
        resolver_injective: bool,
        structural: Text,
    },
    InstanceDecl { class_name: NodeV, arms: Seq<(NodeV, Seq<EntryV>)> },
    SyntaxClass { name: Text, pattern: NodeV, message: Option<Text> },
}

pub enum ItemV {
    Expr(NodeV),
    Decl(DeclV, SpanV),
}

pub struct DocumentV {
    pub header: Seq<(Text, NodeV)>,
    pub items: Seq<ItemV>,
    pub span: SpanV,
}

/// The region from the start of one region to the end of another.
pub open spec fn span_between(start: SpanV, end: SpanV, file: Text) -> SpanV {
    SpanV {
        file,
        start_line: start.start_line,
        start_col: start.start_col,
        end_line: end.end_line,
        end_col: end.end_col,
        name: None,
    }
}

/// The models of the elements of a sequence.
pub open spec fn deep<T: DeepView>(s: Seq<T>) -> Seq<T::V> {
    Seq::new(s.len(), |i: int| s[i].deep_view())
}

impl DeepView for Span {
    type V = SpanV;

    open spec fn deep_view(&self) -> SpanV {
        SpanV {
            file: self.file@,
            start_line: self.start_line,
            start_col: self.start_col,
            end_line: self.end_line,
            end_col: self.end_col,
            name: match self.name {
                Some(n) => Some(n@),
                None => None,
            },
        }
    }
}

impl DeepView for DotKey {
    type V = DotKeyV;

    open spec fn deep_view(&self) -> DotKeyV {
        match *self {
            DotKey::Ident(s) => DotKeyV::Ident(s@),
            DotKey::Int(n) => DotKeyV::Int(n),
        }
    }
}

/// The model of an expression.
pub open spec fn expr_view(e: SurfaceExpression) -> ExprV
    decreases e,
{
    match e {
        SurfaceExpression::Int(n) => ExprV::Int(n),
        SurfaceExpression::U64(n) => ExprV::U64(n),
        SurfaceExpression::Float(s) => ExprV::Float(s@),
        SurfaceExpression::StringLiteral { prefix, delimiter, content } => ExprV::StringLiteral {
            prefix: prefix@,
            delimiter: delimiter@,
            content: content@,
        },
        SurfaceExpression::VarRef { name, escaped, annotation } => ExprV::VarRef {
            name: name@,
            escaped,
            annotation: match annotation {
                Some(a) => Some(
                    Box::new(AnnotV { ann: ann_view(a.node), span: a.span.deep_view() }),
                ),
                None => None,
            },
        },
        SurfaceExpression::Field { expr, field } => ExprV::Field {
            expr: match expr {
                Some(n) => Some(
                    Box::new(NodeV { expr: expr_view(n.expr), span: n.span.deep_view() }),
                ),
                None => None,
            },
            field: field.deep_view(),
        },
        SurfaceExpression::Dict(v) => ExprV::Dict(
            Seq::new(
                v@.len(),
                |i: int|
                    if 0 <= i < v@.len() {
                        EntryV {
                            key: match v@[i].node.key {
                                Some(k) => Some(
                                    NodeV { expr: expr_view(k.expr), span: k.span.deep_view() },
                                ),
                                None => None,
                            },
                            value: NodeV {
                                expr: expr_view(v@[i].node.value.expr),
                                span: v@[i].node.value.span.deep_view(),
                            },
                            span: v@[i].span.deep_view(),
                        }
                    } else {
                        arbitrary()
                    },
            ),
        ),
        SurfaceExpression::Call { func, args, named_args, implied, pipe_span } => ExprV::Call {
            func: Box::new(NodeV { expr: expr_view(func.expr), span: func.span.deep_view() }),
            args: Seq::new(
                args@.len(),
                |i: int|
                    if 0 <= i < args@.len() {
                        NodeV { expr: expr_view(args@[i].expr), span: args@[i].span.deep_view() }
                    } else {
                        arbitrary()
                    },
            ),
            named_args: Seq::new(
                named_args@.len(),
                |i: int|
                    if 0 <= i < named_args@.len() {
                        NamedArgV {
                            name: named_args@[i].node.name@,
                            value: NodeV {
                                expr: expr_view(named_args@[i].node.value.expr),
                                span: named_args@[i].node.value.span.deep_view(),
                            },
                            annotation: match named_args@[i].node.annotation {
                                Some(a) => Some(
                                    AnnotV { ann: ann_view(a.node), span: a.span.deep_view() },
                                ),
                                None => None,
                            },
                            span: named_args@[i].span.deep_view(),
                        }
                    } else {
                        arbitrary()
                    },
            ),
            implied,
            pipe_span: pipe_span.deep_view(),
        },
        SurfaceExpression::Fn { return_ann, params, body, desugared } => ExprV::Fn {
            return_ann: match return_ann {
                Some(a) => Some(
                    Box::new(AnnotV { ann: ann_view(a.node), span: a.span.deep_view() }),
                ),
                None => None,
            },
            params: Seq::new(
                params@.len(),
                |i: int|
                    if 0 <= i < params@.len() {
                        ParamV {
                            name: params@[i].node.name@,
                            annotation: match params@[i].node.annotation {
                                Some(a) => Some(
                                    AnnotV { ann: ann_view(a.node), span: a.span.deep_view() },
                                ),
                                None => None,
                            },
                            variadic: params@[i].node.variadic,
                            span: params@[i].span.deep_view(),
                        }
                    } else {
                        arbitrary()
                    },
            ),
            body: Box::new(NodeV { expr: expr_view(body.expr), span: body.span.deep_view() }),
            desugared,
        },
        SurfaceExpression::Sequential(v) => ExprV::Sequential(
            Seq::new(
                v@.len(),
                |i: int|
                    if 0 <= i < v@.len() {
                        NodeV { expr: expr_view(v@[i].expr), span: v@[i].span.deep_view() }
                    } else {
                        arbitrary()
                    },
            ),
        ),
        SurfaceExpression::Quote(n) => ExprV::Quote(
            Box::new(NodeV { expr: expr_view(n.expr), span: n.span.deep_view() }),
        ),
        SurfaceExpression::Unquote(n) => ExprV::Unquote(
            Box::new(NodeV { expr: expr_view(n.expr), span: n.span.deep_view() }),
        ),
        SurfaceExpression::UnquoteSplice(n) => ExprV::UnquoteSplice(
            Box::new(NodeV { expr: expr_view(n.expr), span: n.span.deep_view() }),
        ),
        SurfaceExpression::Match { scrutinee, arms } => ExprV::Match {
            scrutinee: Box::new(
                NodeV { expr: expr_view(scrutinee.expr), span: scrutinee.span.deep_view() },
            ),
            arms: Seq::new(
                arms@.len(),
                |i: int|
                    if 0 <= i < arms@.len() {
                        ArmV {
                            pattern: NodeV {
                                expr: expr_view(arms@[i].pattern.expr),
                                span: arms@[i].pattern.span.deep_view(),
                            },
                            let_bindings: match arms@[i].let_bindings {
                                Some(n) => Some(
                                    NodeV { expr: expr_view(n.expr), span: n.span.deep_view() },
                                ),
                                None => None,
                            },
                            guard: match arms@[i].guard {
                                Some(n) => Some(
                                    NodeV { expr: expr_view(n.expr), span: n.span.deep_view() },
                                ),
                                None => None,
                            },
                            body: Seq::new(
                                arms@[i].body@.len(),
                                |j: int|
                                    if 0 <= j < arms@[i].body@.len() {
                                        NodeV {
                                            expr: expr_view(arms@[i].body@[j].expr),
                                            span: arms@[i].body@[j].span.deep_view(),
                                        }
                                    } else {
                                        arbitrary()
                                    },
                            ),
                        }
                    } else {
                        arbitrary()
                    },
            ),
        },
        SurfaceExpression::TypeAssert { annotation, expr } => ExprV::TypeAssert {
            annotation: Box::new(
                AnnotV { ann: ann_view(annotation.node), span: annotation.span.deep_view() },
            ),
            expr: Box::new(NodeV { expr: expr_view(expr.expr), span: expr.span.deep_view() }),
        },
        SurfaceExpression::PatternDecl { bindings } => ExprV::PatternDecl {
            bindings: Seq::new(
                bindings@.len(),
                |i: int|
                    if 0 <= i < bindings@.len() {
                        NodeV {
                            expr: expr_view(bindings@[i].expr),
                            span: bindings@[i].span.deep_view(),
                        }
                    } else {
                        arbitrary()
                    },
            ),
        },
        SurfaceExpression::LetDecl { bindings } => ExprV::LetDecl {
            bindings: Seq::new(
                bindings@.len(),
                |i: int|
                    if 0 <= i < bindings@.len() {
                        NodeV {
                            expr: expr_view(bindings@[i].expr),
                            span: bindings@[i].span.deep_view(),
                        }
                    } else {
                        arbitrary()
                    },
            ),
        },
        SurfaceExpression::Pipe { lhs, rhs, pipe_span } => ExprV::Pipe {
            lhs: Box::new(NodeV { expr: expr_view(lhs.expr), span: lhs.span.deep_view() }),
            rhs: Box::new(NodeV { expr: expr_view(rhs.expr), span: rhs.span.deep_view() }),
            pipe_span: pipe_span.deep_view(),
        },
        SurfaceExpression::Placeholder(name, annotation) => ExprV::Placeholder(
            name.deep_view(),
            match annotation {
                Some(a) => Some(
                    Box::new(AnnotV { ann: ann_view(a.node), span: a.span.deep_view() }),
                ),
                None => None,
            },
        ),
        SurfaceExpression::Decl(d) => ExprV::Decl(Box::new(decl_view(*d))),
        SurfaceExpression::Error(s) => ExprV::Error(s.deep_view()),
    }
}

/// The model of an annotation.
pub open spec fn ann_view(a: Annotation) -> AnnV
    decreases a,
{
    match a {
        Annotation::Simple(s) => AnnV::Simple(s@),
        Annotation::Quote => AnnV::Quote,
        Annotation::Annotated(x, y) => AnnV::Annotated(
            Box::new(ann_view(*x)),
            Box::new(ann_view(*y)),
        ),
        Annotation::PropertyDict(v) => AnnV::PropertyDict(
            Seq::new(
                v@.len(),
                |i: int|
                    if 0 <= i < v@.len() {
                        EntryV {
                            key: match v@[i].node.key {
                                Some(k) => Some(
                                    NodeV { expr: expr_view(k.expr), span: k.span.deep_view() },
                                ),
                                None => None,
                            },
                            value: NodeV {
                                expr: expr_view(v@[i].node.value.expr),
                                span: v@[i].node.value.span.deep_view(),
                            },
                            span: v@[i].span.deep_view(),
                        }
                    } else {
                        arbitrary()
                    },
            ),
        ),
    }
}

/// The model of a declaration.
pub open spec fn decl_view(d: SurfaceDeclaration) -> DeclV
    decreases d,
{
    match d {
        SurfaceDeclaration::TypeAlias { params, body } => DeclV::TypeAlias {
            params: Seq::new(
                params@.len(),
                |i: int|
                    if 0 <= i < params@.len() {
                        (
                            params@[i].0@,
                            match params@[i].1 {
                                Some(a) => Some(
                                    AnnotV { ann: ann_view(a.node), span: a.span.deep_view() },
                                ),
                                None => None,
                            },
                        )
                    } else {
                        arbitrary()
                    },
            ),
            body: NodeV { expr: expr_view(body.expr), span: body.span.deep_view() },
        },
        SurfaceDeclaration::ClassDecl {
            name,
            params,
            superclasses,
            methods,
            determines,
            resolver,
            resolver_injective,
            structural,
        } => DeclV::ClassDecl {
            name: name@,
            params: params.deep_view(),
            superclasses: superclasses.deep_view(),
            methods: Seq::new(
                methods@.len(),
                |i: int|
                    if 0 <= i < methods@.len() {
                        EntryV {
                            key: match methods@[i].node.key {
                                Some(k) => Some(
                                    NodeV { expr: expr_view(k.expr), span: k.span.deep_view() },
                                ),
                                None => None,
                            },
                            value: NodeV {
                                expr: expr_view(methods@[i].node.value.expr),
                                span: methods@[i].node.value.span.deep_view(),
                            },
                            span: methods@[i].span.deep_view(),
                        }
                    } else {
                        arbitrary()
                    },
            ),
            determines: Seq::new(
                determines@.len(),
                |i: int|
                    if 0 <= i < determines@.len() {
                        NodeV {
                            expr: expr_view(determines@[i].expr),
                            span: determines@[i].span.deep_view(),
                        }
                    } else {
                        arbitrary()
                    },
            ),
            resolver: match resolver {
                Some(n) => Some(NodeV { expr: expr_view(n.expr), span: n.span.deep_view() }),
                None => None,
            },
            resolver_injective,
            structural: structural@,
        },
        SurfaceDeclaration::InstanceDecl { class_name, arms } => DeclV::InstanceDecl {
            class_name: NodeV {
                expr: expr_view(class_name.expr),
                span: class_name.span.deep_view(),
            },
            arms: Seq::new(
                arms@.len(),
                |i: int|
                    if 0 <= i < arms@.len() {
                        (
                            NodeV {
                                expr: expr_view(arms@[i].0.expr),
                                span: arms@[i].0.span.deep_view(),
                            },
                            Seq::new(
                                arms@[i].1@.len(),
                                |j: int|
                                    if 0 <= j < arms@[i].1@.len() {
                                        EntryV {
                                            key: match arms@[i].1@[j].node.key {
                                                Some(k) => Some(
                                                    NodeV {
                                                        expr: expr_view(k.expr),
                                                        span: k.span.deep_view(),
                                                    },
                                                ),
                                                None => None,
                                            },
                                            value: NodeV {
                                                expr: expr_view(arms@[i].1@[j].node.value.expr),
                                                span: arms@[i].1@[j].node.value.span.deep_view(),
                                            },
                                            span: arms@[i].1@[j].span.deep_view(),
                                        }
                                    } else {
                                        arbitrary()
                                    },
                            ),
                        )
                    } else {
                        arbitrary()
                    },
            ),
        },
        SurfaceDeclaration::SyntaxClass { name, pattern, message } => DeclV::SyntaxClass {
            name: name@,
            pattern: NodeV { expr: expr_view(pattern.expr), span: pattern.span.deep_view() },
            message: message.deep_view(),
        },
    }
}

impl DeepView for SurfaceNode {
    type V = NodeV;

    open spec fn deep_view(&self) -> NodeV {
        NodeV { expr: expr_view(self.expr), span: self.span.deep_view() }
    }
}

impl DeepView for Spanned<SurfaceEntry> {
    type V = EntryV;

    open spec fn deep_view(&self) -> EntryV {
        EntryV {
            key: self.node.key.deep_view(),
            value: self.node.value.deep_view(),
            span: self.span.deep_view(),
        }
    }
}

impl DeepView for Spanned<SurfaceNamedArg> {
    type V = NamedArgV;

    open spec fn deep_view(&self) -> NamedArgV {
        NamedArgV {
            name: self.node.name@,
            value: self.node.value.deep_view(),
            annotation: self.node.annotation.deep_view(),
            span: self.span.deep_view(),
        }
    }
}

impl DeepView for Spanned<SurfaceParam> {
    type V = ParamV;

    open spec fn deep_view(&self) -> ParamV {
        ParamV {
            name: self.node.name@,
            annotation: self.node.annotation.deep_view(),
            variadic: self.node.variadic,
            span: self.span.deep_view(),
        }
    }
}

impl DeepView for SurfaceMatchArm {
    type V = ArmV;

    open spec fn deep_view(&self) -> ArmV {
        ArmV {
            pattern: self.pattern.deep_view(),
            let_bindings: self.let_bindings.deep_view(),
            guard: self.guard.deep_view(),
            body: self.body.deep_view(),
        }
    }
}

impl DeepView for Spanned<Annotation> {
    type V = AnnotV;

    open spec fn deep_view(&self) -> AnnotV {
        AnnotV { ann: ann_view(self.node), span: self.span.deep_view() }
    }
}

impl DeepView for SurfaceItem {
    type V = ItemV;

    open spec fn deep_view(&self) -> ItemV {
        match *self {
            SurfaceItem::Expr(n) => ItemV::Expr(n.deep_view()),
            SurfaceItem::Decl(d) => ItemV::Decl(decl_view(d.node), d.span.deep_view()),
        }
    }
}

impl DeepView for Spanned<Arc<SurfaceDocument>> {
    type V = DocumentV;

    open spec fn deep_view(&self) -> DocumentV {
        DocumentV {
            header: header_entries(self.node.header),
            items: self.node.items.deep_view(),
            span: self.span.deep_view(),
        }
    }
}

/// A boxed annotation, where there is one.
pub open spec fn boxed_annot(a: Option<AnnotV>) -> Option<Box<AnnotV>> {
    match a {
        Some(x) => Some(Box::new(x)),
        None => None,
    }
}

/// A boxed node, where there is one.
pub open spec fn boxed_node(n: Option<NodeV>) -> Option<Box<NodeV>> {
    match n {
        Some(x) => Some(Box::new(x)),
        None => None,
    }
}

pub broadcast proof fn vec_deep<T: DeepView>(v: Vec<T>)
    ensures
        #[trigger] v.deep_view() == deep(v@),
{
    assert(v.deep_view() =~= deep(v@));
}

pub broadcast proof fn deep_push<T: DeepView>(s: Seq<T>, x: T)
    ensures
        #[trigger] deep(s.push(x)) == deep(s).push(x.deep_view()),
{
    assert(deep(s.push(x)) =~= deep(s).push(x.deep_view()));
}

pub broadcast proof fn deep_subrange<T: DeepView>(s: Seq<T>, i: int, j: int)
    requires
        0 <= i <= j <= s.len(),
    ensures
        #[trigger] deep(s.subrange(i, j)) == deep(s).subrange(i, j),
{
    assert(deep(s.subrange(i, j)) =~= deep(s).subrange(i, j));
}

pub broadcast proof fn deep_empty<T: DeepView>(s: Seq<T>)
    requires
        s.len() == 0,
    ensures
        #[trigger] deep(s) == Seq::<T::V>::empty(),
{
    assert(deep(s) =~= Seq::<T::V>::empty());
}

pub broadcast proof fn deep_add<T: DeepView>(s: Seq<T>, t: Seq<T>)
    ensures
        #[trigger] deep(s + t) == deep(s) + deep(t),
{
    assert(deep(s + t) =~= deep(s) + deep(t));
}

/// The lists inside an expression's model are the models of the lists inside it.
pub broadcast proof fn expr_lists(e: SurfaceExpression)
    ensures
        match e {
            SurfaceExpression::Dict(v) => #[trigger] expr_view(e) == ExprV::Dict(v.deep_view()),
            SurfaceExpression::Call { args, named_args, .. } => {
                &&& expr_view(e)->Call_args == args.deep_view()
                &&& expr_view(e)->named_args == named_args.deep_view()
            },
            SurfaceExpression::Fn { params, .. } => expr_view(e)->params == params.deep_view(),
            SurfaceExpression::Sequential(v) => expr_view(e) == ExprV::Sequential(v.deep_view()),
            SurfaceExpression::Match { arms, .. } => expr_view(e)->arms == arms.deep_view(),
            SurfaceExpression::PatternDecl { bindings } => expr_view(e) == (ExprV::PatternDecl {
                bindings: bindings.deep_view(),
            }),
            SurfaceExpression::LetDecl { bindings } => expr_view(e) == (ExprV::LetDecl {
                bindings: bindings.deep_view(),
            }),
            _ => true,
        },
{
    match e {
        SurfaceExpression::Dict(v) => {
            assert(expr_view(e)->Dict_0 =~= v.deep_view());
        },
        SurfaceExpression::Call { args, named_args, .. } => {
            assert(expr_view(e)->Call_args =~= args.deep_view());
            assert(expr_view(e)->named_args =~= named_args.deep_view());
        },
        SurfaceExpression::Fn { params, .. } => {
            assert(expr_view(e)->params =~= params.deep_view());
        },
        SurfaceExpression::Sequential(v) => {
            assert(expr_view(e)->Sequential_0 =~= v.deep_view());
        },
        SurfaceExpression::Match { arms, .. } => {
            assert forall|i: int| 0 <= i < arms@.len() implies expr_view(e)->arms[i]
                == #[trigger] arms.deep_view()[i] by {
                assert(expr_view(e)->arms[i].body =~= arms@[i].body.deep_view());
            }
            assert(expr_view(e)->arms =~= arms.deep_view());
        },
        SurfaceExpression::PatternDecl { bindings } => {
            assert(expr_view(e)->PatternDecl_bindings =~= bindings.deep_view());
        },
        SurfaceExpression::LetDecl { bindings } => {
            assert(expr_view(e)->LetDecl_bindings =~= bindings.deep_view());
        },
        _ => {},
    }
}

/// The list inside an annotation's model is the model of the list inside it.
pub broadcast proof fn ann_lists(a: Annotation)
    ensures
        match a {
            Annotation::PropertyDict(v) => #[trigger] ann_view(a) == AnnV::PropertyDict(
                v.deep_view(),
            ),
            _ => true,
        },
{
    match a {
        Annotation::PropertyDict(v) => {
            assert(ann_view(a)->PropertyDict_0 =~= v.deep_view());
        },
        _ => {},
    }
}

/// The lists inside a declaration's model are the models of the lists inside it.
pub broadcast proof fn decl_lists(d: SurfaceDeclaration)
    ensures
        match d {
            SurfaceDeclaration::TypeAlias { params, .. } => {
                (#[trigger] decl_view(d))->TypeAlias_params == params.deep_view()
            },
            SurfaceDeclaration::ClassDecl { methods, determines, .. } => {
                &&& decl_view(d)->methods == methods.deep_view()
                &&& decl_view(d)->determines == determines.deep_view()
            },
            SurfaceDeclaration::InstanceDecl { arms, .. } => decl_view(d)->arms
                == arms.deep_view(),
            _ => true,
        },
{
    match d {
        SurfaceDeclaration::TypeAlias { params, .. } => {
            assert(decl_view(d)->TypeAlias_params =~= params.deep_view());
        },
        SurfaceDeclaration::ClassDecl { methods, determines, .. } => {
            assert(decl_view(d)->methods =~= methods.deep_view());
            assert(decl_view(d)->determines =~= determines.deep_view());
        },
        SurfaceDeclaration::InstanceDecl { arms, .. } => {
            assert forall|i: int| 0 <= i < arms@.len() implies decl_view(d)->arms[i]
                == #[trigger] arms.deep_view()[i] by {
                assert(decl_view(d)->arms[i].1 =~= arms@[i].1.deep_view());
            }
            assert(decl_view(d)->arms =~= arms.deep_view());
        },
        _ => {},
    }
}

pub broadcast group group_models {
    vec_deep,
    deep_push,
    deep_subrange,
    deep_empty,
    deep_add,
    expr_lists,
    ann_lists,
    decl_lists,
}

} // verus!
