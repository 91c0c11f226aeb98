//! Diagnostics: what is reported about a source.
use crate::ast::Span;
use crate::model::{SpanV, Text};
use vstd::prelude::*;

verus! {

/// How grave a diagnostic is.
#[derive(Debug, Clone, Copy, PartialEq, Eq, Structural)]
pub enum DiagnosticLevel {
    Error,
    Warning,
}

/// A diagnostic: its level, its kind, a message, the regions it is about (each with an optional
/// label), notes and an optional help line.
#[derive(Debug, Clone, PartialEq)]
pub struct TypeDiagnostic {
    pub level: DiagnosticLevel,
    pub kind: String,
    pub message: String,
    pub spans: Vec<(Span, Option<String>)>,
    pub notes: Vec<String>,
    pub help: Option<String>,
}

#[verifier::ext_equal]
pub struct DiagV {
    pub level: DiagnosticLevel,
    pub kind: Text,
    pub message: Text,
    pub spans: Seq<(SpanV, Option<Text>)>,
    pub notes: Seq<Text>,
    pub help: Option<Text>,
}

impl DeepView for TypeDiagnostic {
    type V = DiagV;

    open spec fn deep_view(&self) -> DiagV {
        DiagV {
            level: self.level,
            kind: self.kind@,
            message: self.message@,
            spans: self.spans.deep_view(),
            notes: self.notes.deep_view(),
            help: self.help.deep_view(),
        }
    }
}

/// An error of a kind about one region.
pub open spec fn error_diag(kind: Text, message: Text, span: SpanV) -> DiagV {
    DiagV {
        level: DiagnosticLevel::Error,
        kind,
        message,
        spans: seq![(span, None)],
        notes: Seq::empty(),
        help: None,
    }
}

/// A parse error about one region.
pub open spec fn parse_diag(message: Text, span: SpanV) -> DiagV {
    error_diag("parse-error"@, message, span)
}

impl TypeDiagnostic {
    /// A diagnostic about any number of regions.
    pub fn with_spans(
        level: DiagnosticLevel,
        kind: &str,
        message: &str,
        spans: Vec<(Span, Option<String>)>,
    ) -> (r: TypeDiagnostic)
        ensures
            r.deep_view() == (DiagV {
                level,
                kind: kind@,
                message: message@,
                spans: spans.deep_view(),
                notes: Seq::empty(),
                help: None,
            }),
    {
        broadcast use crate::model::group_models;

        TypeDiagnostic {
            level,
            kind: kind.to_owned(),
            message: message.to_owned(),
            spans,
            notes: Vec::new(),
            help: None,
        }
    }

    /// An error about one region.
    pub fn error(kind: &str, message: String, span: Span) -> (r: TypeDiagnostic)
        ensures
            r.deep_view() == error_diag(kind@, message@, span.deep_view()),
    {
        broadcast use crate::model::group_models;

        let mut spans: Vec<(Span, Option<String>)> = Vec::new();
        let ghost model = (span.deep_view(), None::<Text>);
        spans.push((span, None));
        assert(spans.deep_view() =~= seq![model]);
        TypeDiagnostic {
            level: DiagnosticLevel::Error,
            kind: kind.to_owned(),
            message,
            spans,
            notes: Vec::new(),
            help: None,
        }
    }

    /// The diagnostic with one more note.
    pub fn with_note(self, note: String) -> (r: TypeDiagnostic)
        ensures
            r.deep_view() == (DiagV {
                notes: self.deep_view().notes.push(note@),
                ..self.deep_view()
            }),
    {
        broadcast use crate::model::group_models;

        let mut notes: Vec<String> = self.notes;
        notes.push(note);
        TypeDiagnostic {
            level: self.level,
            kind: self.kind,
            message: self.message,
            spans: self.spans,
            notes,
            help: self.help,
        }
    }

    /// The diagnostic with a help line.
    pub fn with_help(self, help: &str) -> (r: TypeDiagnostic)
        ensures
            r.deep_view() == (DiagV { help: Some(help@), ..self.deep_view() }),
    {
        TypeDiagnostic {
            level: self.level,
            kind: self.kind,
            message: self.message,
            spans: self.spans,
            notes: self.notes,
            help: Some(help.to_owned()),
        }
    }
}

} // verus!
