//! The frames of the parser: one for each form that is open, and what is said of them in
//! messages.
use crate::ast::{
    Annotation, Span, Spanned, SurfaceEntry, SurfaceMatchArm, SurfaceNode, SurfaceParam,
};
use crate::diagnostic::{parse_diag, DiagV, TypeDiagnostic};
use crate::model::{AnnotV, ArmV, EntryV, NodeV, ParamV, SpanV, Text};
use std::sync::Arc;
use vstd::hash_set::StringHashSet;
use vstd::prelude::*;

verus! {

/// An open form.
#[allow(inconsistent_fields)]
pub enum StackFrame {
    /// `[key: value ...]`. `seen_keys` holds the literal keys so far; `floating_annotation` is the
    /// annotation of the `[@Type expr]` form.
    Dict {
        entries: Vec<Spanned<SurfaceEntry>>,
        pending_key: Option<Arc<SurfaceNode>>,
        seen_keys: StringHashSet,
        span_start: Span,
        floating_annotation: Option<Spanned<Annotation>>,
    },
    /// `[f arg name: value]` or `[call f arg name: value]`.
    Call {
        func: Option<Arc<SurfaceNode>>,
        implied: bool,
        args: Vec<CallArg>,
        pending_key: Option<(String, Span, Option<Spanned<Annotation>>)>,
        span_start: Span,
    },
    /// `[fn@Type [let params] body ...]`
    Fn {
        params: Vec<Spanned<SurfaceParam>>,
        body: Vec<Arc<SurfaceNode>>,
        return_ann: Option<Spanned<Annotation>>,
        span_start: Span,
        params_consumed: bool,
    },
    /// `[type [let params] body ...]`
    TypeAlias {
        params: Vec<(String, Option<Spanned<Annotation>>)>,
        type_exprs: Vec<Spanned<SurfaceEntry>>,
        pending_key: Option<Arc<SurfaceNode>>,
        span_start: Span,
    },
    /// `[quote expr]`
    Quote { expr: Option<Arc<SurfaceNode>>, span_start: Span },
    /// `[unquote expr]`
    Unquote { expr: Option<Arc<SurfaceNode>>, span_start: Span },
    /// `[unquote-splice expr]`
    UnquoteSplice { expr: Option<Arc<SurfaceNode>>, span_start: Span },
    /// `[syntax-class name pattern: [...] message: "..."]`
    SyntaxClass {
        name: Option<String>,
        pattern: Option<Arc<SurfaceNode>>,
        message: Option<String>,
        pending_key: Option<Arc<SurfaceNode>>,
        span_start: Span,
    },
    /// `[match scrutinee pattern: body ...]`
    Match {
        scrutinee: Option<Arc<SurfaceNode>>,
        arms: Vec<SurfaceMatchArm>,
        pending_pattern_expr: Option<Arc<SurfaceNode>>,
        pending_pattern: Option<(Arc<SurfaceNode>, Option<Arc<SurfaceNode>>)>,
        span_start: Span,
    },
    /// `[class [let params] [metadata] method: Type ...]`. The name is present, and empty, once the
    /// parameters are read; the binding gives the declaration its name.
    ClassDecl {
        name: Option<String>,
        params: Vec<String>,
        methods: Vec<Spanned<SurfaceEntry>>,
        pending_key: Option<Arc<SurfaceNode>>,
        structural_metadata: Option<Arc<SurfaceNode>>,
        span_start: Span,
    },
    /// `[instance Class pattern: methods ...]`
    InstanceDecl {
        class_name: Option<Arc<SurfaceNode>>,
        arms: Vec<(Arc<SurfaceNode>, Vec<Spanned<SurfaceEntry>>)>,
        pending_arm_pattern: Option<Arc<SurfaceNode>>,
        pending_key: Option<Arc<SurfaceNode>>,
        current_arm_methods: Vec<Spanned<SurfaceEntry>>,
        span_start: Span,
    },
    /// `[pattern binding ...]`
    PatternDecl { bindings: Vec<Arc<SurfaceNode>>, span_start: Span },
    /// `[let binding name: default ...]`. The pair of a pending key and a pending right-hand side
    /// is committed when the right-hand side is complete.
    LetDecl {
        bindings: Vec<Arc<SurfaceNode>>,
        pending_key: Option<Arc<SurfaceNode>>,
        pending_rhs: Option<Arc<SurfaceNode>>,
        span_start: Span,
    },
    /// `[case [let bindings] pattern body ...]`
    CaseDecl {
        let_bindings: Option<Arc<SurfaceNode>>,
        pattern: Option<Arc<SurfaceNode>>,
        body: Vec<Arc<SurfaceNode>>,
        span_start: Span,
    },
    /// `lhs |`, waiting for the right-hand side.
    Pipe { lhs: Arc<SurfaceNode>, pipe_span: Span },
    /// `@`, waiting for the annotation's expression.
    AnnotationCollect {
        target: AnnotationTarget,
        value: Option<Arc<SurfaceNode>>,
        span_start: Span,
    },
}

/// What an annotation belongs to.
pub enum AnnotationTarget {
    /// The expression right before the `@`.
    Attached(Arc<SurfaceNode>),
    /// The next expression of the enclosing dict.
    Floating,
    /// The result of the enclosing function.
    FnReturn,
}

/// An argument of a call.
pub enum CallArg {
    Positional(Arc<SurfaceNode>),
    Named(String, Arc<SurfaceNode>, Option<Spanned<Annotation>>),
}

/// An error inside the parser: a message, its region and an optional help line.
pub struct ParseError {
    pub message: String,
    pub span: Span,
    pub help: Option<String>,
}

#[allow(inconsistent_fields)]
pub enum FrameV {
    Dict {
        entries: Seq<EntryV>,
        pending_key: Option<NodeV>,
        seen_keys: Set<Text>,
        span_start: SpanV,
        floating_annotation: Option<AnnotV>,
    },
    Call {
        func: Option<NodeV>,
        implied: bool,
        args: Seq<CallArgV>,
        pending_key: Option<(Text, SpanV, Option<AnnotV>)>,
        span_start: SpanV,
    },
    Fn {
        params: Seq<ParamV>,
        body: Seq<NodeV>,
        return_ann: Option<AnnotV>,
        span_start: SpanV,
        params_consumed: bool,
    },
    TypeAlias {
        params: Seq<(Text, Option<AnnotV>)>,
        type_exprs: Seq<EntryV>,
        pending_key: Option<NodeV>,
        span_start: SpanV,
    },
    Quote { expr: Option<NodeV>, span_start: SpanV },
    Unquote { expr: Option<NodeV>, span_start: SpanV },
    UnquoteSplice { expr: Option<NodeV>, span_start: SpanV },
    SyntaxClass {
        name: Option<Text>,
        pattern: Option<NodeV>,
        message: Option<Text>,
        pending_key: Option<NodeV>,
        span_start: SpanV,
    },
    Match {
        scrutinee: Option<NodeV>,
        arms: Seq<ArmV>,
        pending_pattern_expr: Option<NodeV>,
        pending_pattern: Option<(NodeV, Option<NodeV>)>,
        span_start: SpanV,
    },
    ClassDecl {
        name: Option<Text>,
        params: Seq<Text>,
        methods: Seq<EntryV>,
        pending_key: Option<NodeV>,
        structural_metadata: Option<NodeV>,
        span_start: SpanV,
    },
    InstanceDecl {
        class_name: Option<NodeV>,
        arms: Seq<(NodeV, Seq<EntryV>)>,
        pending_arm_pattern: Option<NodeV>,
        pending_key: Option<NodeV>,
        current_arm_methods: Seq<EntryV>,
        span_start: SpanV,
    },
    PatternDecl { bindings: Seq<NodeV>, span_start: SpanV },
    LetDecl {
        bindings: Seq<NodeV>,
        pending_key: Option<NodeV>,
        pending_rhs: Option<NodeV>,
        span_start: SpanV,
    },
    CaseDecl {
        let_bindings: Option<NodeV>,
        pattern: Option<NodeV>,
        body: Seq<NodeV>,
        span_start: SpanV,
    },
    Pipe { lhs: NodeV, pipe_span: SpanV },
    AnnotationCollect { target: TargetV, value: Option<NodeV>, span_start: SpanV },
}

pub enum TargetV {
    Attached(NodeV),
    Floating,
    FnReturn,
}

pub enum CallArgV {
    Positional(NodeV),
    Named(Text, NodeV, Option<AnnotV>),
}

pub struct ErrV {
    pub message: Text,
    pub span: SpanV,
    pub help: Option<Text>,
}

impl DeepView for StackFrame {
    type V = FrameV;

    open spec fn deep_view(&self) -> FrameV {
        match *self {
            StackFrame::Dict {
                entries,
                pending_key,
                seen_keys,
                span_start,
                floating_annotation,
            } => FrameV::Dict {
                entries: entries.deep_view(),
                pending_key: pending_key.deep_view(),
                seen_keys: seen_keys@,
                span_start: span_start.deep_view(),
                floating_annotation: floating_annotation.deep_view(),
            },
            StackFrame::Call { func, implied, args, pending_key, span_start } => FrameV::Call {
                func: func.deep_view(),
                implied,
                args: args.deep_view(),
                pending_key: pending_key.deep_view(),
                span_start: span_start.deep_view(),
            },
            StackFrame::Fn { params, body, return_ann, span_start, params_consumed } =>
            FrameV::Fn {
                params: params.deep_view(),
                body: body.deep_view(),
                return_ann: return_ann.deep_view(),
                span_start: span_start.deep_view(),
                params_consumed,
            },
            StackFrame::TypeAlias { params, type_exprs, pending_key, span_start } =>
            FrameV::TypeAlias {
                params: params.deep_view(),
                type_exprs: type_exprs.deep_view(),
                pending_key: pending_key.deep_view(),
                span_start: span_start.deep_view(),
            },
            StackFrame::Quote { expr, span_start } => FrameV::Quote {
                expr: expr.deep_view(),
                span_start: span_start.deep_view(),
            },
            StackFrame::Unquote { expr, span_start } => FrameV::Unquote {
                expr: expr.deep_view(),
                span_start: span_start.deep_view(),
            },
            StackFrame::UnquoteSplice { expr, span_start } => FrameV::UnquoteSplice {
                expr: expr.deep_view(),
                span_start: span_start.deep_view(),
            },
            StackFrame::SyntaxClass { name, pattern, message, pending_key, span_start } =>
            FrameV::SyntaxClass {
                name: name.deep_view(),
                pattern: pattern.deep_view(),
                message: message.deep_view(),
                pending_key: pending_key.deep_view(),
                span_start: span_start.deep_view(),
            },
            StackFrame::Match {
                scrutinee,
                arms,
                pending_pattern_expr,
                pending_pattern,
                span_start,
            } => FrameV::Match {
                scrutinee: scrutinee.deep_view(),
                arms: arms.deep_view(),
                pending_pattern_expr: pending_pattern_expr.deep_view(),
                pending_pattern: pending_pattern.deep_view(),
                span_start: span_start.deep_view(),
            },
            StackFrame::ClassDecl {
                name,
                params,
                methods,
                pending_key,
                structural_metadata,
                span_start,
            } => FrameV::ClassDecl {
                name: name.deep_view(),
                params: params.deep_view(),
                methods: methods.deep_view(),
                pending_key: pending_key.deep_view(),
                structural_metadata: structural_metadata.deep_view(),
                span_start: span_start.deep_view(),
            },
            StackFrame::InstanceDecl {
                class_name,
                arms,
                pending_arm_pattern,
                pending_key,
                current_arm_methods,
                span_start,
            } => FrameV::InstanceDecl {
                class_name: class_name.deep_view(),
                arms: arms.deep_view(),
                pending_arm_pattern: pending_arm_pattern.deep_view(),
                pending_key: pending_key.deep_view(),
                current_arm_methods: current_arm_methods.deep_view(),
                span_start: span_start.deep_view(),
            },
            StackFrame::PatternDecl { bindings, span_start } => FrameV::PatternDecl {
                bindings: bindings.deep_view(),
                span_start: span_start.deep_view(),
            },
            StackFrame::LetDecl { bindings, pending_key, pending_rhs, span_start } =>
            FrameV::LetDecl {
                bindings: bindings.deep_view(),
                pending_key: pending_key.deep_view(),
                pending_rhs: pending_rhs.deep_view(),
                span_start: span_start.deep_view(),
            },
            StackFrame::CaseDecl { let_bindings, pattern, body, span_start } => FrameV::CaseDecl {
                let_bindings: let_bindings.deep_view(),
                pattern: pattern.deep_view(),
                body: body.deep_view(),
                span_start: span_start.deep_view(),
            },
            StackFrame::Pipe { lhs, pipe_span } => FrameV::Pipe {
                lhs: lhs.deep_view(),
                pipe_span: pipe_span.deep_view(),
            },
            StackFrame::AnnotationCollect { target, value, span_start } =>
            FrameV::AnnotationCollect {
                target: target.deep_view(),
                value: value.deep_view(),
                span_start: span_start.deep_view(),
            },
        }
    }
}

impl DeepView for AnnotationTarget {
    type V = TargetV;

    open spec fn deep_view(&self) -> TargetV {
        match *self {
            AnnotationTarget::Attached(n) => TargetV::Attached(n.deep_view()),
            AnnotationTarget::Floating => TargetV::Floating,
            AnnotationTarget::FnReturn => TargetV::FnReturn,
        }
    }
}

impl DeepView for CallArg {
    type V = CallArgV;

    open spec fn deep_view(&self) -> CallArgV {
        match *self {
            CallArg::Positional(n) => CallArgV::Positional(n.deep_view()),
            CallArg::Named(name, n, a) => CallArgV::Named(name@, n.deep_view(), a.deep_view()),
        }
    }
}

impl DeepView for ParseError {
    type V = ErrV;

    open spec fn deep_view(&self) -> ErrV {
        ErrV {
            message: self.message@,
            span: self.span.deep_view(),
            help: self.help.deep_view(),
        }
    }
}

/// An error without a help line.
pub open spec fn plain_err(message: Text, span: SpanV) -> ErrV {
    ErrV { message, span, help: None }
}

/// An error with a help line.
pub open spec fn helped_err(message: Text, span: SpanV, help: Text) -> ErrV {
    ErrV { message, span, help: Some(help) }
}

/// The diagnostic of an error.
pub open spec fn diag_of(e: ErrV) -> DiagV {
    DiagV { help: e.help, ..parse_diag(e.message, e.span) }
}

impl ParseError {
    /// An error without a help line.
    pub fn plain(message: &str, span: &Span) -> (r: ParseError)
        ensures
            r.deep_view() == plain_err(message@, span.deep_view()),
    {
        ParseError { message: message.to_owned(), span: span.clone(), help: None }
    }

    /// An error with a help line.
    pub fn helped(message: &str, span: &Span, help: &str) -> (r: ParseError)
        ensures
            r.deep_view() == helped_err(message@, span.deep_view(), help@),
    {
        ParseError {
            message: message.to_owned(),
            span: span.clone(),
            help: Some(help.to_owned()),
        }
    }

    /// The diagnostic of an error.
    pub fn into_diagnostic(self) -> (r: TypeDiagnostic)
        ensures
            r.deep_view() == diag_of(self.deep_view()),
    {
        let d: TypeDiagnostic = TypeDiagnostic::error("parse-error", self.message, self.span);
        match self.help {
            Some(h) => d.with_help(h.as_str()),
            None => d,
        }
    }
}

/// What a frame is called in a note.
pub open spec fn context_name(f: FrameV) -> Text {
    match f {
        FrameV::Match { .. } => "match expression"@,
        FrameV::Dict { .. } => "dict"@,
        FrameV::Call { .. } => "call expression"@,
        FrameV::Fn { .. } => "fn expression"@,
        FrameV::LetDecl { .. } => "let binding"@,
        FrameV::TypeAlias { .. } => "type declaration"@,
        FrameV::ClassDecl { .. } => "class declaration"@,
        FrameV::InstanceDecl { .. } => "instance declaration"@,
        FrameV::PatternDecl { .. } => "pattern declaration"@,
        FrameV::Quote { .. } => "quote expression"@,
        FrameV::Unquote { .. } => "unquote expression"@,
        FrameV::UnquoteSplice { .. } => "unquote-splice expression"@,
        FrameV::SyntaxClass { .. } => "syntax class"@,
        FrameV::AnnotationCollect { .. } => "annotation"@,
        FrameV::CaseDecl { .. } => "case arm"@,
        FrameV::Pipe { .. } => "pipe expression"@,
    }
}

/// The keyword that a frame is called by where it is left open.
pub open spec fn form_name(f: FrameV) -> Text {
    match f {
        FrameV::Dict { .. } => "dict"@,
        FrameV::Call { .. } => "call"@,
        FrameV::Fn { .. } => "fn"@,
        FrameV::TypeAlias { .. } => "type"@,
        FrameV::Quote { .. } => "quote"@,
        FrameV::Unquote { .. } => "unquote"@,
        FrameV::UnquoteSplice { .. } => "unquote-splice"@,
        FrameV::SyntaxClass { .. } => "syntax-class"@,
        FrameV::Match { .. } => "match"@,
        FrameV::ClassDecl { .. } => "class"@,
        FrameV::InstanceDecl { .. } => "instance"@,
        FrameV::PatternDecl { .. } => "pattern"@,
        FrameV::LetDecl { .. } => "let"@,
        FrameV::CaseDecl { .. } => "case"@,
        FrameV::Pipe { .. } => "pipe"@,
        FrameV::AnnotationCollect { .. } => "annotation"@,
    }
}

/// Where a frame was opened.
pub open spec fn opened_at(f: FrameV) -> SpanV {
    match f {
        FrameV::Dict { span_start, .. } => span_start,
        FrameV::Call { span_start, .. } => span_start,
        FrameV::Fn { span_start, .. } => span_start,
        FrameV::TypeAlias { span_start, .. } => span_start,
        FrameV::Quote { span_start, .. } => span_start,
        FrameV::Unquote { span_start, .. } => span_start,
        FrameV::UnquoteSplice { span_start, .. } => span_start,
        FrameV::SyntaxClass { span_start, .. } => span_start,
        FrameV::Match { span_start, .. } => span_start,
        FrameV::ClassDecl { span_start, .. } => span_start,
        FrameV::InstanceDecl { span_start, .. } => span_start,
        FrameV::PatternDecl { span_start, .. } => span_start,
        FrameV::LetDecl { span_start, .. } => span_start,
        FrameV::CaseDecl { span_start, .. } => span_start,
        FrameV::Pipe { pipe_span, .. } => pipe_span,
        FrameV::AnnotationCollect { span_start, .. } => span_start,
    }
}

impl StackFrame {
    /// What the frame is called in a note.
    pub fn context(&self) -> (r: &'static str)
        ensures
            r@ == context_name(self.deep_view()),
    {
        match self {
            StackFrame::Match { .. } => "match expression",
            StackFrame::Dict { .. } => "dict",
            StackFrame::Call { .. } => "call expression",
            StackFrame::Fn { .. } => "fn expression",
            StackFrame::LetDecl { .. } => "let binding",
            StackFrame::TypeAlias { .. } => "type declaration",
            StackFrame::ClassDecl { .. } => "class declaration",
            StackFrame::InstanceDecl { .. } => "instance declaration",
            StackFrame::PatternDecl { .. } => "pattern declaration",
            StackFrame::Quote { .. } => "quote expression",
            StackFrame::Unquote { .. } => "unquote expression",
            StackFrame::UnquoteSplice { .. } => "unquote-splice expression",
            StackFrame::SyntaxClass { .. } => "syntax class",
            StackFrame::AnnotationCollect { .. } => "annotation",
            StackFrame::CaseDecl { .. } => "case arm",
            StackFrame::Pipe { .. } => "pipe expression",
        }
    }

    /// The keyword the frame is called by where it is left open.
    pub fn form(&self) -> (r: &'static str)
        ensures
            r@ == form_name(self.deep_view()),
    {
        match self {
            StackFrame::Dict { .. } => "dict",
            StackFrame::Call { .. } => "call",
            StackFrame::Fn { .. } => "fn",
            StackFrame::TypeAlias { .. } => "type",
            StackFrame::Quote { .. } => "quote",
            StackFrame::Unquote { .. } => "unquote",
            StackFrame::UnquoteSplice { .. } => "unquote-splice",
            StackFrame::SyntaxClass { .. } => "syntax-class",
            StackFrame::Match { .. } => "match",
            StackFrame::ClassDecl { .. } => "class",
            StackFrame::InstanceDecl { .. } => "instance",
            StackFrame::PatternDecl { .. } => "pattern",
            StackFrame::LetDecl { .. } => "let",
            StackFrame::CaseDecl { .. } => "case",
            StackFrame::Pipe { .. } => "pipe",
            StackFrame::AnnotationCollect { .. } => "annotation",
        }
    }

    /// Where the frame was opened.
    pub fn opened(&self) -> (r: &Span)
        ensures
            r.deep_view() == opened_at(self.deep_view()),
    {
        match self {
            StackFrame::Dict { span_start, .. } => span_start,
            StackFrame::Call { span_start, .. } => span_start,
            StackFrame::Fn { span_start, .. } => span_start,
            StackFrame::TypeAlias { span_start, .. } => span_start,
            StackFrame::Quote { span_start, .. } => span_start,
            StackFrame::Unquote { span_start, .. } => span_start,
            StackFrame::UnquoteSplice { span_start, .. } => span_start,
            StackFrame::SyntaxClass { span_start, .. } => span_start,
            StackFrame::Match { span_start, .. } => span_start,
            StackFrame::ClassDecl { span_start, .. } => span_start,
            StackFrame::InstanceDecl { span_start, .. } => span_start,
            StackFrame::PatternDecl { span_start, .. } => span_start,
            StackFrame::LetDecl { span_start, .. } => span_start,
            StackFrame::CaseDecl { span_start, .. } => span_start,
            StackFrame::Pipe { pipe_span, .. } => pipe_span,
            StackFrame::AnnotationCollect { span_start, .. } => span_start,
        }
    }
}

} // verus!
