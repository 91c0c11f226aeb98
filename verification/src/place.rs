//! Putting a completed expression where it belongs: into the open form, or into the document.
use crate::ast::{
    clone_entries, clone_opt_annot, Annotation, Span, Spanned, SurfaceEntry, SurfaceExpression,
    SurfaceItem, SurfaceMatchArm, SurfaceNode, SurfaceParam,
};
use crate::frame::{helped_err, plain_err, CallArg, CallArgV, ErrV, FrameV, ParseError, StackFrame};
use crate::model::{
    ann_view, expr_view, span_between, AnnV, AnnotV, ArmV, EntryV, ExprV, ItemV, NodeV, ParamV,
    SpanV, Text,
};
use crate::node::{
    binding_name, dot_path, dot_path_name, inject_class_name_from_key, key_name_of, key_text,
    key_to_string, mk, mk_positional, mk_string, named_class, positional, span_of_pair, string_node,
};
use crate::text::{
    all_lower, join3, name_all_lower, name_starts_lower, name_starts_upper, starts_lower,
    starts_upper, text_is,
};
use std::sync::Arc;
use vstd::prelude::*;

verus! {

/// Whether a binding can be a parameter of a function: a name, or a placeholder.
pub open spec fn is_param(e: ExprV) -> bool {
    e is VarRef || e is Placeholder
}

/// Whether every binding can be a parameter.
pub open spec fn only_params(bindings: Seq<NodeV>) -> bool {
    forall|i: int| 0 <= i < bindings.len() ==> is_param((#[trigger] bindings[i]).expr)
}

/// The parameter that a binding declares; the bare placeholder `...` declares none.
pub open spec fn param_of(n: NodeV) -> Option<ParamV> {
    match n.expr {
        ExprV::VarRef { name, annotation, .. } => Some(
            ParamV { name, annotation: unboxed(annotation), variadic: false, span: n.span },
        ),
        ExprV::Placeholder(Some(name), annotation) => Some(
            ParamV { name, annotation: unboxed(annotation), variadic: true, span: n.span },
        ),
        _ => None,
    }
}

/// An annotation out of its box, where there is one.
pub open spec fn unboxed(a: Option<Box<AnnotV>>) -> Option<AnnotV> {
    match a {
        Some(x) => Some(*x),
        None => None,
    }
}

/// The parameters that a list of bindings declares.
pub open spec fn params_of(bindings: Seq<NodeV>) -> Seq<ParamV>
    decreases bindings.len(),
{
    if bindings.len() == 0 {
        Seq::empty()
    } else {
        match param_of(bindings.last()) {
            Some(p) => params_of(bindings.drop_last()).push(p),
            None => params_of(bindings.drop_last()),
        }
    }
}

/// Whether an expression is a name in lowercase.
pub open spec fn lower_name(e: ExprV) -> bool {
    e matches ExprV::VarRef { name, .. } && all_lower(name)
}

/// Whether every node is a name in lowercase.
pub open spec fn only_lower_names(nodes: Seq<NodeV>) -> bool {
    forall|i: int| 0 <= i < nodes.len() ==> lower_name((#[trigger] nodes[i]).expr)
}

/// The type parameters that a list of names declares.
pub open spec fn type_params_of(bindings: Seq<NodeV>) -> Seq<(Text, Option<AnnotV>)>
    decreases bindings.len(),
{
    if bindings.len() == 0 {
        Seq::empty()
    } else {
        match bindings.last().expr {
            ExprV::VarRef { name, annotation, .. } => type_params_of(bindings.drop_last()).push(
                (name, unboxed(annotation)),
            ),
            _ => type_params_of(bindings.drop_last()),
        }
    }
}

/// The names among a list of bindings.
pub open spec fn names_of(bindings: Seq<NodeV>) -> Seq<Text>
    decreases bindings.len(),
{
    if bindings.len() == 0 {
        Seq::empty()
    } else {
        match bindings.last().expr {
            ExprV::VarRef { name, .. } => names_of(bindings.drop_last()).push(name),
            _ => names_of(bindings.drop_last()),
        }
    }
}

/// Whether an expression reads like a parameter list without `let`: an implied call of lowercase
/// names only.
pub open spec fn bare_name_list(e: ExprV) -> bool {
    match e {
        ExprV::Call { func, args, named_args, implied, .. } => {
            &&& implied
            &&& lower_name(func.expr)
            &&& only_lower_names(args)
            &&& named_args.len() == 0
        },
        _ => false,
    }
}

/// Whether an expression is a call form that is no element of a type body: an implied call of an
/// uppercase name with arguments; with an annotated name only named arguments count.
pub open spec fn constructor_call(e: ExprV) -> bool {
    match e {
        ExprV::Call { func, args, named_args, implied, .. } => match func.expr {
            ExprV::VarRef { name, annotation, .. } => {
                &&& implied
                &&& starts_upper(name)
                &&& named_args.len() > 0 || (annotation is None && args.len() > 0)
            },
            _ => false,
        },
        _ => false,
    }
}

/// An annotation in a message.
pub open spec fn annotation_text(a: AnnV) -> Text
    decreases a,
{
    match a {
        AnnV::Simple(name) => name,
        AnnV::Quote => "Expr"@,
        AnnV::Annotated(outer, inner) => annotation_text(*outer) + "@"@ + annotation_text(*inner),
        AnnV::PropertyDict(_) => "[...]"@,
    }
}

/// The head of a call with its annotation, in a message.
pub open spec fn head_text(e: ExprV) -> Text {
    match e {
        ExprV::Call { func, .. } => match func.expr {
            ExprV::VarRef { name, annotation, .. } => match annotation {
                Some(a) => name + "@"@ + annotation_text(a.ann),
                None => name,
            },
            _ => "CtorName"@,
        },
        _ => "CtorName"@,
    }
}

/// Whether an entry's key is a lowercase name.
pub open spec fn lower_keyed(e: EntryV) -> bool {
    e.key matches Some(k) && (k.expr matches ExprV::VarRef { name, .. } && starts_lower(name))
}

/// Whether an entry with a lowercase key is among the entries.
pub open spec fn any_lower_keyed(entries: Seq<EntryV>) -> bool {
    exists|i: int| 0 <= i < entries.len() && lower_keyed(#[trigger] entries[i])
}

/// Whether an expression is a dict with a lowercase key: the body of a structural type.
pub open spec fn structural_dict(e: ExprV) -> bool {
    match e {
        ExprV::Dict(entries) => any_lower_keyed(entries),
        _ => false,
    }
}

/// Whether a structural body is among the entries of a type.
pub open spec fn has_structural(entries: Seq<EntryV>) -> bool {
    exists|i: int|
        0 <= i < entries.len() && (#[trigger] entries[i]).key is None && structural_dict(
            entries[i].value.expr,
        )
}

/// What a `[fn ...]` form makes of an expression: first the parameter list, then the body.
pub open spec fn accept_fn(f: FrameV, node: NodeV) -> (FrameV, Option<ErrV>) {
    match f {
        FrameV::Fn { params, body, return_ann, span_start, params_consumed } => {
            if params_consumed || body.len() > 0 {
                (
                    FrameV::Fn {
                        params,
                        body: body.push(node),
                        return_ann,
                        span_start,
                        params_consumed,
                    },
                    None,
                )
            } else if node.expr matches ExprV::Dict(entries) && entries.len() == 0 {
                (
                    FrameV::Fn { params, body, return_ann, span_start, params_consumed: true },
                    None,
                )
            } else {
                match node.expr {
                    ExprV::LetDecl { bindings } => if only_params(bindings) {
                        (
                            FrameV::Fn {
                                params: params + params_of(bindings),
                                body,
                                return_ann,
                                span_start,
                                params_consumed: true,
                            },
                            None,
                        )
                    } else {
                        (
                            f,
                            Some(
                                plain_err(
                                    "fn parameter list contains invalid binding patterns; each entry must be a name, name@Type, ...name, or _ wildcard"@,
                                    node.span,
                                ),
                            ),
                        )
                    },
                    _ => (
                        f,
                        Some(
                            helped_err(
                                "`[fn ...]` parameter bracket must start with `let` (e.g. `[fn [let x y] body]`)"@,
                                node.span,
                                "change [fn [x y] body] to [fn [let x y] body]"@,
                            ),
                        ),
                    ),
                }
            }
        },
        _ => (f, None),
    }
}

/// What a `[type ...]` form makes of an expression: the payload of a named constructor, the
/// parameter list, or an entry of the body.
pub open spec fn accept_type(f: FrameV, node: NodeV) -> (FrameV, Option<ErrV>) {
    match f {
        FrameV::TypeAlias { params, type_exprs, pending_key, span_start } => {
            let first = params.len() == 0 && type_exprs.len() == 0;
            if pending_key is Some {
                (
                    FrameV::TypeAlias {
                        params,
                        type_exprs: type_exprs.push(
                            EntryV { key: pending_key, value: node, span: node.span },
                        ),
                        pending_key: None,
                        span_start,
                    },
                    None,
                )
            } else if first && (node.expr matches ExprV::LetDecl { bindings } && only_lower_names(
                bindings,
            )) {
                (
                    FrameV::TypeAlias {
                        params: params + type_params_of(node.expr->LetDecl_bindings),
                        type_exprs,
                        pending_key,
                        span_start,
                    },
                    None,
                )
            } else if first && bare_name_list(node.expr) {
                (
                    f,
                    Some(
                        helped_err(
                            "`[type ...]` parameter bracket must start with `let` (e.g. `[type [let a b] Body]`)"@,
                            node.span,
                            "change [type [a b] Body] to [type [let a b] Body]"@,
                        ),
                    ),
                )
            } else if constructor_call(node.expr) {
                (
                    f,
                    Some(
                        plain_err(
                            "unexpected call form `["@ + head_text(node.expr)
                                + " ...]` inside `[type ...]`; named constructors use keyed entry syntax: `"@
                                + head_text(node.expr) + ": [fields]`"@,
                            node.span,
                        ),
                    ),
                )
            } else if structural_dict(node.expr) && has_structural(type_exprs) {
                (
                    f,
                    Some(
                        plain_err(
                            "structural alias must have exactly one body; use [or ...] for a union of structural types"@,
                            node.span,
                        ),
                    ),
                )
            } else {
                (
                    FrameV::TypeAlias {
                        params,
                        type_exprs: type_exprs.push(positional(node)),
                        pending_key,
                        span_start,
                    },
                    None,
                )
            }
        },
        _ => (f, None),
    }
}

/// What a `[syntax-class ...]` form makes of an expression: its name, a key, or the value of a key.
pub open spec fn accept_syntax(f: FrameV, node: NodeV) -> (FrameV, Option<ErrV>) {
    match f {
        FrameV::SyntaxClass { name, pattern, message, pending_key, span_start } => {
            let taken = FrameV::SyntaxClass {
                name,
                pattern,
                message,
                pending_key: None,
                span_start,
            };
            if name is None {
                match node.expr {
                    ExprV::VarRef { name: n, .. } => (
                        FrameV::SyntaxClass {
                            name: Some(n),
                            pattern,
                            message,
                            pending_key,
                            span_start,
                        },
                        None,
                    ),
                    _ => (
                        f,
                        Some(
                            plain_err(
                                "syntax-class declaration requires a name (bare identifier)"@,
                                node.span,
                            ),
                        ),
                    ),
                }
            } else {
                match pending_key {
                    None => (
                        FrameV::SyntaxClass {
                            name,
                            pattern,
                            message,
                            pending_key: Some(node),
                            span_start,
                        },
                        None,
                    ),
                    Some(key) => match binding_name(key) {
                        Some(key_name) => if key_name == "pattern"@ {
                            if pattern is Some {
                                (
                                    taken,
                                    Some(
                                        plain_err(
                                            "syntax-class: duplicate 'pattern' key"@,
                                            node.span,
                                        ),
                                    ),
                                )
                            } else {
                                (
                                    FrameV::SyntaxClass {
                                        name,
                                        pattern: Some(node),
                                        message,
                                        pending_key: None,
                                        span_start,
                                    },
                                    None,
                                )
                            }
                        } else if key_name == "message"@ {
                            if message is Some {
                                (
                                    taken,
                                    Some(
                                        plain_err(
                                            "syntax-class: duplicate 'message' key"@,
                                            node.span,
                                        ),
                                    ),
                                )
                            } else {
                                match node.expr {
                                    ExprV::StringLiteral { content, .. } => (
                                        FrameV::SyntaxClass {
                                            name,
                                            pattern,
                                            message: Some(content),
                                            pending_key: None,
                                            span_start,
                                        },
                                        None,
                                    ),
                                    _ => (
                                        taken,
                                        Some(
                                            plain_err(
                                                "syntax-class 'message' value must be a string literal"@,
                                                node.span,
                                            ),
                                        ),
                                    ),
                                }
                            }
                        } else {
                            (
                                taken,
                                Some(
                                    plain_err(
                                        "syntax-class: unknown key '"@ + key_name
                                            + "' (expected 'pattern' or 'message')"@,
                                        key.span,
                                    ),
                                ),
                            )
                        },
                        None => (
                            taken,
                            Some(
                                plain_err("syntax-class keys must be bare identifiers"@, key.span),
                            ),
                        ),
                    },
                }
            }
        },
        _ => (f, None),
    }
}

/// The arms with one more expression in the body of the last.
pub open spec fn extend_last_arm(arms: Seq<ArmV>, node: NodeV) -> Seq<ArmV> {
    arms.drop_last().push(ArmV { body: arms.last().body.push(node), ..arms.last() })
}

/// What a `[match ...]` form makes of an expression: the scrutinee, a body, or something that is a
/// pattern if a colon follows and else one more expression of the last body.
pub open spec fn accept_match(f: FrameV, node: NodeV) -> (FrameV, Option<ErrV>) {
    match f {
        FrameV::Match { scrutinee, arms, pending_pattern_expr, pending_pattern, span_start } => {
            if scrutinee is None {
                (
                    FrameV::Match {
                        scrutinee: Some(node),
                        arms,
                        pending_pattern_expr,
                        pending_pattern,
                        span_start,
                    },
                    None,
                )
            } else {
                match (pending_pattern, pending_pattern_expr) {
                    (None, None) => (
                        FrameV::Match {
                            scrutinee,
                            arms,
                            pending_pattern_expr: Some(node),
                            pending_pattern,
                            span_start,
                        },
                        None,
                    ),
                    (Some((pattern, guard)), _) => (
                        FrameV::Match {
                            scrutinee,
                            arms: arms.push(
                                ArmV { pattern, let_bindings: None, guard, body: seq![node] },
                            ),
                            pending_pattern_expr,
                            pending_pattern: None,
                            span_start,
                        },
                        None,
                    ),
                    (None, Some(earlier)) => if arms.len() > 0 {
                        (
                            FrameV::Match {
                                scrutinee,
                                arms: extend_last_arm(arms, earlier),
                                pending_pattern_expr: Some(node),
                                pending_pattern,
                                span_start,
                            },
                            None,
                        )
                    } else {
                        (
                            FrameV::Match {
                                scrutinee,
                                arms,
                                pending_pattern_expr: None,
                                pending_pattern,
                                span_start,
                            },
                            Some(
                                plain_err(
                                    "unexpected expression before first match arm (no pattern: body pair yet)"@,
                                    earlier.span,
                                ),
                            ),
                        )
                    },
                }
            }
        },
        _ => (f, None),
    }
}

/// What a `[class ...]` form makes of an expression without a key: the parameter list, then the
/// metadata dict.
pub open spec fn accept_class(f: FrameV, node: NodeV) -> (FrameV, Option<ErrV>) {
    match f {
        FrameV::ClassDecl {
            name,
            params,
            methods,
            pending_key,
            structural_metadata,
            span_start,
        } => {
            if name is None {
                match node.expr {
                    ExprV::LetDecl { bindings } => (
                        FrameV::ClassDecl {
                            name: Some(Seq::empty()),
                            params: params + names_of(bindings),
                            methods,
                            pending_key,
                            structural_metadata,
                            span_start,
                        },
                        None,
                    ),
                    _ => (
                        f,
                        Some(
                            helped_err(
                                "class declaration requires [let ...] form (e.g. [class [let a] ...]); class name comes from the binding (e.g. MyClass: [class [let a] ...])"@,
                                node.span,
                                "change [class [a] ...] to [class [let a] ...]"@,
                            ),
                        ),
                    ),
                }
            } else if structural_metadata is None {
                if node.expr is Dict {
                    (
                        FrameV::ClassDecl {
                            name,
                            params,
                            methods,
                            pending_key,
                            structural_metadata: Some(node),
                            span_start,
                        },
                        None,
                    )
                } else {
                    (
                        f,
                        Some(
                            plain_err(
                                "unexpected expression in class form (expected method: Type entries or structural metadata dict)"@,
                                node.span,
                            ),
                        ),
                    )
                }
            } else {
                (
                    f,
                    Some(
                        plain_err(
                            "unexpected expression in class form (expected method: Type entries)"@,
                            node.span,
                        ),
                    ),
                )
            }
        },
        _ => (f, None),
    }
}

/// What an `[instance ...]` form makes of an expression without a key: the class, then the pattern
/// of an arm.
pub open spec fn accept_instance(f: FrameV, node: NodeV) -> (FrameV, Option<ErrV>) {
    match f {
        FrameV::InstanceDecl {
            class_name,
            arms,
            pending_arm_pattern,
            pending_key,
            current_arm_methods,
            span_start,
        } => {
            if class_name is None {
                (
                    FrameV::InstanceDecl {
                        class_name: Some(node),
                        arms,
                        pending_arm_pattern,
                        pending_key,
                        current_arm_methods,
                        span_start,
                    },
                    None,
                )
            } else if pending_arm_pattern is None {
                (
                    FrameV::InstanceDecl {
                        class_name,
                        arms,
                        pending_arm_pattern: Some(node),
                        pending_key,
                        current_arm_methods,
                        span_start,
                    },
                    None,
                )
            } else {
                (
                    f,
                    Some(
                        plain_err(
                            "unexpected expression in instance form (expected colon after pattern)"@,
                            node.span,
                        ),
                    ),
                )
            }
        },
        _ => (f, None),
    }
}

/// The binding that `key: rhs` makes inside `[let ...]`: a name with a default value.
pub open spec fn let_default(key: NodeV, rhs: NodeV) -> Result<NodeV, ErrV> {
    let span = span_of_pair(key.span, rhs.span);
    let constructor = dot_path(rhs) matches Some(path) && starts_upper(path);
    match key.expr {
        ExprV::VarRef { name, .. } => if constructor {
            Err(
                plain_err(
                    "unexpected constructor `"@ + dot_path(rhs)->0
                        + "` as value in `[let ...]` binding `"@ + name
                        + ": ...`; constructor names are not valid binding defaults"@,
                    span,
                ),
            )
        } else {
            Ok(
                NodeV {
                    expr: ExprV::VarRef {
                        name,
                        escaped: false,
                        annotation: Some(
                            Box::new(
                                AnnotV {
                                    ann: AnnV::PropertyDict(
                                        seq![
                                            EntryV {
                                                key: Some(string_node("default"@, key.span)),
                                                value: rhs,
                                                span: rhs.span,
                                            },
                                        ],
                                    ),
                                    span,
                                },
                            ),
                        ),
                    },
                    span,
                },
            )
        },
        ExprV::LetDecl { .. } => if constructor {
            Err(
                plain_err(
                    "unexpected `[...]: Constructor` form in `[let ...]` binding; constructor names are not valid binding defaults"@,
                    rhs.span,
                ),
            )
        } else {
            Err(
                plain_err(
                    "unexpected `[...]` binding group before `:` in `[let ...]`; binding groups cannot have default values"@,
                    rhs.span,
                ),
            )
        },
        _ => Err(plain_err("unexpected form before `:` in [let ...] binding"@, key.span)),
    }
}

/// What a `[let ...]` form makes of an expression: a right-hand side after a colon, else a binding.
/// The next expression completes a right-hand side.
pub open spec fn accept_let(f: FrameV, node: NodeV) -> (FrameV, Option<ErrV>) {
    match f {
        FrameV::LetDecl { bindings, pending_key, pending_rhs, span_start } => match (
            pending_key,
            pending_rhs,
        ) {
            (Some(key), Some(rhs)) => match let_default(key, rhs) {
                Ok(binding) => (
                    FrameV::LetDecl {
                        bindings: bindings.push(binding).push(node),
                        pending_key: None,
                        pending_rhs: None,
                        span_start,
                    },
                    None,
                ),
                Err(e) => (
                    FrameV::LetDecl { bindings, pending_key: None, pending_rhs: None, span_start },
                    Some(e),
                ),
            },
            (Some(key), None) => (
                FrameV::LetDecl { bindings, pending_key, pending_rhs: Some(node), span_start },
                None,
            ),
            (None, _) => (
                FrameV::LetDecl {
                    bindings: bindings.push(node),
                    pending_key: None,
                    pending_rhs: None,
                    span_start,
                },
                None,
            ),
        },
        _ => (f, None),
    }
}

/// What an open form makes of an expression that no key is waiting for. A pipe makes nothing of it:
/// the expression closes the pipe.
pub open spec fn accept(f: FrameV, node: NodeV) -> (FrameV, Option<ErrV>) {
    match f {
        FrameV::Dict { entries, pending_key, seen_keys, span_start, floating_annotation } => (
            FrameV::Dict {
                entries: entries.push(positional(node)),
                pending_key,
                seen_keys,
                span_start,
                floating_annotation,
            },
            None,
        ),
        FrameV::Call { func, implied, args, pending_key, span_start } => (
            FrameV::Call {
                func,
                implied,
                args: args.push(CallArgV::Positional(node)),
                pending_key,
                span_start,
            },
            None,
        ),
        FrameV::Fn { .. } => accept_fn(f, node),
        FrameV::TypeAlias { .. } => accept_type(f, node),
        FrameV::Quote { expr, span_start } => if expr is Some {
            (f, Some(plain_err("quote form can only have one expression"@, node.span)))
        } else {
            (FrameV::Quote { expr: Some(node), span_start }, None)
        },
        FrameV::Unquote { expr, span_start } => if expr is Some {
            (f, Some(plain_err("unquote form can only have one expression"@, node.span)))
        } else {
            (FrameV::Unquote { expr: Some(node), span_start }, None)
        },
        FrameV::UnquoteSplice { expr, span_start } => if expr is Some {
            (f, Some(plain_err("unquote-splice form can only have one expression"@, node.span)))
        } else {
            (FrameV::UnquoteSplice { expr: Some(node), span_start }, None)
        },
        FrameV::SyntaxClass { .. } => accept_syntax(f, node),
        FrameV::Match { .. } => accept_match(f, node),
        FrameV::ClassDecl { .. } => accept_class(f, node),
        FrameV::InstanceDecl { .. } => accept_instance(f, node),
        FrameV::PatternDecl { bindings, span_start } => (
            FrameV::PatternDecl { bindings: bindings.push(node), span_start },
            None,
        ),
        FrameV::LetDecl { .. } => accept_let(f, node),
        FrameV::CaseDecl { let_bindings, pattern, body, span_start } => (
            if let_bindings is None {
                FrameV::CaseDecl { let_bindings: Some(node), pattern, body, span_start }
            } else if pattern is None {
                FrameV::CaseDecl { let_bindings, pattern: Some(node), body, span_start }
            } else {
                FrameV::CaseDecl { let_bindings, pattern, body: body.push(node), span_start }
            },
            None,
        ),
        FrameV::Pipe { .. } => (f, None),
        FrameV::AnnotationCollect { target, value, span_start } => if value is Some {
            (f, Some(plain_err("annotation accepts only one expression"@, node.span)))
        } else {
            (FrameV::AnnotationCollect { target, value: Some(node), span_start }, None)
        },
    }
}

/// A dict key as it is stored: a plain name becomes a string.
pub open spec fn normal_key(key: NodeV) -> NodeV {
    match key.expr {
        ExprV::VarRef { name, escaped: false, annotation: None } => string_node(name, key.span),
        _ => key,
    }
}

/// What a dict makes of an expression: the value of the waiting key, unless the key is there
/// already, or an entry without a key.
pub open spec fn place_in_dict(f: FrameV, node: NodeV) -> (FrameV, Option<ErrV>) {
    match f {
        FrameV::Dict {
            entries,
            pending_key: Some(raw),
            seen_keys,
            span_start,
            floating_annotation,
        } => {
            let key = normal_key(raw);
            let value = named_class(node, key);
            let span = SpanV {
                name: key_text(key.expr),
                ..span_between(key.span, value.span, key.span.file)
            };
            if key_text(key.expr) matches Some(text) && seen_keys.contains(text) {
                (
                    FrameV::Dict {
                        entries,
                        pending_key: None,
                        seen_keys,
                        span_start,
                        floating_annotation,
                    },
                    Some(
                        plain_err(
                            "duplicate key \""@ + key_text(key.expr)->0 + "\""@,
                            key.span,
                        ),
                    ),
                )
            } else {
                (
                    FrameV::Dict {
                        entries: entries.push(EntryV { key: Some(key), value, span }),
                        pending_key: None,
                        seen_keys: match key_text(key.expr) {
                            Some(text) => seen_keys.insert(text),
                            None => seen_keys,
                        },
                        span_start,
                        floating_annotation,
                    },
                    None,
                )
            }
        },
        _ => accept(f, node),
    }
}

/// What a call makes of an expression: a named argument, the function, or a positional argument.
pub open spec fn place_in_call(f: FrameV, node: NodeV) -> (FrameV, Option<ErrV>) {
    match f {
        FrameV::Call { func, implied, args, pending_key, span_start } => match pending_key {
            Some((name, _, ann)) => (
                FrameV::Call {
                    func,
                    implied,
                    args: args.push(CallArgV::Named(name, node, ann)),
                    pending_key: None,
                    span_start,
                },
                None,
            ),
            None => if func is None && args.len() == 0 {
                (FrameV::Call { func: Some(node), implied, args, pending_key, span_start }, None)
            } else {
                accept(f, node)
            },
        },
        _ => (f, None),
    }
}

/// An entry of a key and a value, with their common region.
pub open spec fn keyed(key: NodeV, value: NodeV) -> EntryV {
    EntryV { key: Some(key), value, span: span_of_pair(key.span, value.span) }
}

/// What a class makes of an expression: a method, once its header is read.
pub open spec fn place_in_class(f: FrameV, node: NodeV) -> (FrameV, Option<ErrV>) {
    match f {
        FrameV::ClassDecl {
            name: Some(name),
            params,
            methods,
            pending_key: Some(key),
            structural_metadata,
            span_start,
        } => (
            FrameV::ClassDecl {
                name: Some(name),
                params,
                methods: methods.push(keyed(key, node)),
                pending_key: None,
                structural_metadata,
                span_start,
            },
            None,
        ),
        _ => accept(f, node),
    }
}

/// What an instance makes of an expression: a method, the methods of a dict, or a pattern.
pub open spec fn place_in_instance(f: FrameV, node: NodeV) -> (FrameV, Option<ErrV>) {
    match f {
        FrameV::InstanceDecl {
            class_name: Some(class_name),
            arms,
            pending_arm_pattern,
            pending_key,
            current_arm_methods,
            span_start,
        } => match (pending_key, node.expr) {
            (Some(key), _) => (
                FrameV::InstanceDecl {
                    class_name: Some(class_name),
                    arms,
                    pending_arm_pattern,
                    pending_key: None,
                    current_arm_methods: current_arm_methods.push(keyed(key, node)),
                    span_start,
                },
                None,
            ),
            (None, ExprV::Dict(entries)) => if pending_arm_pattern is None && arms.len() > 0 {
                (
                    FrameV::InstanceDecl {
                        class_name: Some(class_name),
                        arms,
                        pending_arm_pattern,
                        pending_key,
                        current_arm_methods: current_arm_methods + entries,
                        span_start,
                    },
                    None,
                )
            } else {
                accept(f, node)
            },
            _ => accept(f, node),
        },
        _ => accept(f, node),
    }
}

/// What an open form makes of an expression.
pub open spec fn place(f: FrameV, node: NodeV) -> (FrameV, Option<ErrV>) {
    match f {
        FrameV::Dict { .. } => place_in_dict(f, node),
        FrameV::Call { .. } => place_in_call(f, node),
        FrameV::ClassDecl { .. } => place_in_class(f, node),
        FrameV::InstanceDecl { .. } => place_in_instance(f, node),
        _ => accept(f, node),
    }
}

/// The open forms and the items of the document after an expression is put in place, and the error
/// where it does not fit.
pub struct PlacedV {
    pub stack: Seq<FrameV>,
    pub items: Seq<ItemV>,
    pub error: Option<ErrV>,
}

/// The expression of a closed pipe.
pub open spec fn pipe_node(lhs: NodeV, pipe_span: SpanV, rhs: NodeV) -> NodeV {
    NodeV {
        expr: ExprV::Pipe {
            lhs: Box::new(lhs),
            rhs: Box::new(rhs),
            pipe_span: Some(pipe_span),
        },
        span: span_between(pipe_span, rhs.span, rhs.span.file),
    }
}

/// Puts an expression into the innermost open form, or into the document where none is open. It
/// closes the pipes that wait for it.
pub open spec fn placed(stack: Seq<FrameV>, items: Seq<ItemV>, node: NodeV) -> PlacedV
    decreases stack.len(),
{
    if stack.len() == 0 {
        PlacedV { stack, items: items.push(ItemV::Expr(node)), error: None }
    } else {
        match stack.last() {
            FrameV::Pipe { lhs, pipe_span } => placed(
                stack.drop_last(),
                items,
                pipe_node(lhs, pipe_span, node),
            ),
            f => PlacedV {
                stack: stack.drop_last().push(place(f, node).0),
                items,
                error: place(f, node).1,
            },
        }
    }
}

fn all_params(bindings: &Vec<Arc<SurfaceNode>>) -> (b: bool)
    ensures
        b == only_params(bindings.deep_view()),
{
    let mut i: usize = 0;
    while i < bindings.len()
        invariant
            i <= bindings@.len(),
            forall|k: int|
                0 <= k < i ==> is_param((#[trigger] bindings.deep_view()[k]).expr),
        decreases bindings@.len() - i,
    {
        assert(bindings.deep_view()[i as int] == bindings@[i as int].deep_view());
        match &bindings[i].expr {
            SurfaceExpression::VarRef { .. } => {},
            SurfaceExpression::Placeholder(_, _) => {},
            _ => {
                assert(!is_param(bindings.deep_view()[i as int].expr));
                return false;
            },
        }
        i = i + 1;
    }
    true
}

fn push_params(params: &mut Vec<Spanned<SurfaceParam>>, bindings: &Vec<Arc<SurfaceNode>>)
    ensures
        final(params).deep_view() == old(params).deep_view() + params_of(bindings.deep_view()),
{
    broadcast use crate::model::group_models;

    let ghost start = params.deep_view();
    let ghost all = bindings.deep_view();
    let mut i: usize = 0;
    assert(start =~= start + params_of(all.take(0)));
    while i < bindings.len()
        invariant
            i <= bindings@.len(),
            all == bindings.deep_view(),
            params.deep_view() == start + params_of(all.take(i as int)),
        decreases bindings@.len() - i,
    {
        let ghost before = params.deep_view();
        assert(all[i as int] == bindings@[i as int].deep_view());
        assert(all.take(i + 1).drop_last() =~= all.take(i as int));
        assert(all.take(i + 1).last() == all[i as int]);
        match &bindings[i].expr {
            SurfaceExpression::VarRef { name, annotation, .. } => {
                let p: Spanned<SurfaceParam> = Spanned {
                    node: SurfaceParam {
                        name: name.clone(),
                        annotation: clone_opt_annot(annotation),
                        variadic: false,
                    },
                    span: bindings[i].span.clone(),
                };
                let ghost pv = p.deep_view();
                assert(param_of(all[i as int]) == Some(pv));
                params.push(p);
                assert(params.deep_view() == before.push(pv));
            },
            SurfaceExpression::Placeholder(name, annotation) => match name {
                Some(n) => {
                    let p: Spanned<SurfaceParam> = Spanned {
                        node: SurfaceParam {
                            name: n.clone(),
                            annotation: clone_opt_annot(annotation),
                            variadic: true,
                        },
                        span: bindings[i].span.clone(),
                    };
                    let ghost pv = p.deep_view();
                    assert(param_of(all[i as int]) == Some(pv));
                    params.push(p);
                    assert(params.deep_view() == before.push(pv));
                },
                None => {
                    assert(param_of(all[i as int]) is None);
                },
            },
            _ => {
                assert(param_of(all[i as int]) is None);
            },
        }
        i = i + 1;
        assert(params.deep_view() =~= start + params_of(all.take(i as int)));
    }
    assert(all.take(i as int) =~= all);
}

fn is_lower_name(e: &SurfaceExpression) -> (b: bool)
    ensures
        b == lower_name(expr_view(*e)),
{
    match e {
        SurfaceExpression::VarRef { name, .. } => name_all_lower(name),
        _ => false,
    }
}

fn all_lower_names(nodes: &Vec<Arc<SurfaceNode>>) -> (b: bool)
    ensures
        b == only_lower_names(nodes.deep_view()),
{
    let mut i: usize = 0;
    while i < nodes.len()
        invariant
            i <= nodes@.len(),
            forall|k: int| 0 <= k < i ==> lower_name((#[trigger] nodes.deep_view()[k]).expr),
        decreases nodes@.len() - i,
    {
        assert(nodes.deep_view()[i as int] == nodes@[i as int].deep_view());
        if !is_lower_name(&nodes[i].expr) {
            assert(!lower_name(nodes.deep_view()[i as int].expr));
            return false;
        }
        i = i + 1;
    }
    true
}

fn push_type_params(
    params: &mut Vec<(String, Option<Spanned<Annotation>>)>,
    bindings: &Vec<Arc<SurfaceNode>>,
)
    ensures
        final(params).deep_view() == old(params).deep_view() + type_params_of(
            bindings.deep_view(),
        ),
{
    broadcast use crate::model::group_models;

    let ghost start = params.deep_view();
    let ghost all = bindings.deep_view();
    let mut i: usize = 0;
    assert(start =~= start + type_params_of(all.take(0)));
    while i < bindings.len()
        invariant
            i <= bindings@.len(),
            all == bindings.deep_view(),
            params.deep_view() == start + type_params_of(all.take(i as int)),
        decreases bindings@.len() - i,
    {
        let ghost before = params.deep_view();
        assert(all[i as int] == bindings@[i as int].deep_view());
        assert(all.take(i + 1).drop_last() =~= all.take(i as int));
        assert(all.take(i + 1).last() == all[i as int]);
        match &bindings[i].expr {
            SurfaceExpression::VarRef { name, annotation, .. } => {
                let p: (String, Option<Spanned<Annotation>>) = (
                    name.clone(),
                    clone_opt_annot(annotation),
                );
                let ghost pv = p.deep_view();
                assert(all[i as int].expr matches ExprV::VarRef { name, annotation, .. } && pv == (
                    name,
                    unboxed(annotation),
                ));
                params.push(p);
                assert(params.deep_view() == before.push(pv));
            },
            _ => {},
        }
        i = i + 1;
        assert(params.deep_view() =~= start + type_params_of(all.take(i as int)));
    }
    assert(all.take(i as int) =~= all);
}

fn push_names(names: &mut Vec<String>, bindings: &Vec<Arc<SurfaceNode>>)
    ensures
        final(names).deep_view() == old(names).deep_view() + names_of(bindings.deep_view()),
{
    broadcast use crate::model::group_models;

    let ghost start = names.deep_view();
    let ghost all = bindings.deep_view();
    let mut i: usize = 0;
    assert(start =~= start + names_of(all.take(0)));
    while i < bindings.len()
        invariant
            i <= bindings@.len(),
            all == bindings.deep_view(),
            names.deep_view() == start + names_of(all.take(i as int)),
        decreases bindings@.len() - i,
    {
        let ghost before = names.deep_view();
        assert(all[i as int] == bindings@[i as int].deep_view());
        assert(all.take(i + 1).drop_last() =~= all.take(i as int));
        assert(all.take(i + 1).last() == all[i as int]);
        match &bindings[i].expr {
            SurfaceExpression::VarRef { name, .. } => {
                names.push(name.clone());
                assert(names.deep_view() == before.push(name@));
            },
            _ => {},
        }
        i = i + 1;
        assert(names.deep_view() =~= start + names_of(all.take(i as int)));
    }
    assert(all.take(i as int) =~= all);
}

fn is_bare_name_list(e: &SurfaceExpression) -> (b: bool)
    ensures
        b == bare_name_list(expr_view(*e)),
{
    broadcast use crate::model::group_models;

    match e {
        SurfaceExpression::Call { func, args, named_args, implied, .. } => {
            assert(func.deep_view().expr == expr_view(func.expr));
            *implied && is_lower_name(&func.expr) && all_lower_names(args) && named_args.len() == 0
        },
        _ => false,
    }
}

fn is_constructor_call(e: &SurfaceExpression) -> (b: bool)
    ensures
        b == constructor_call(expr_view(*e)),
{
    broadcast use crate::model::group_models;

    match e {
        SurfaceExpression::Call { func, args, named_args, implied, .. } => {
            assert(func.deep_view().expr == expr_view(func.expr));
            match &func.expr {
                SurfaceExpression::VarRef { name, annotation, .. } => *implied && name_starts_upper(
                    name,
                ) && (named_args.len() > 0 || (annotation.is_none() && args.len() > 0)),
                _ => false,
            }
        },
        _ => false,
    }
}

fn show_annotation(a: &Annotation) -> (r: String)
    ensures
        r@ == annotation_text(ann_view(*a)),
    decreases a,
{
    match a {
        Annotation::Simple(name) => name.clone(),
        Annotation::Quote => "Expr".to_owned(),
        Annotation::Annotated(outer, inner) => {
            let mut out: String = show_annotation(outer);
            out.append("@");
            let rest: String = show_annotation(inner);
            out.append(rest.as_str());
            out
        },
        Annotation::PropertyDict(_) => "[...]".to_owned(),
    }
}

fn show_head(e: &SurfaceExpression) -> (r: String)
    ensures
        r@ == head_text(expr_view(*e)),
{
    match e {
        SurfaceExpression::Call { func, .. } => {
            assert(func.deep_view().expr == expr_view(func.expr));
            match &func.expr {
                SurfaceExpression::VarRef { name, annotation, .. } => match annotation {
                    Some(a) => {
                        assert(a.deep_view().ann == ann_view(a.node));
                        join3(name.as_str(), "@", show_annotation(&a.node).as_str())
                    },
                    None => name.clone(),
                },
                _ => "CtorName".to_owned(),
            }
        },
        _ => "CtorName".to_owned(),
    }
}

fn is_structural_dict(e: &SurfaceExpression) -> (b: bool)
    ensures
        b == structural_dict(expr_view(*e)),
{
    broadcast use crate::model::group_models;

    match e {
        SurfaceExpression::Dict(entries) => {
            let mut i: usize = 0;
            while i < entries.len()
                invariant
                    i <= entries@.len(),
                    expr_view(*e) == ExprV::Dict(entries.deep_view()),
                    forall|k: int| 0 <= k < i ==> !lower_keyed(#[trigger] entries.deep_view()[k]),
                decreases entries@.len() - i,
            {
                assert(entries.deep_view()[i as int] == entries@[i as int].deep_view());
                match &entries[i].node.key {
                    Some(k) => {
                        assert(k.deep_view().expr == expr_view(k.expr));
                        match &k.expr {
                            SurfaceExpression::VarRef { name, .. } => {
                                if name_starts_lower(name) {
                                    assert(lower_keyed(entries.deep_view()[i as int]));
                                    return true;
                                }
                            },
                            _ => {},
                        }
                    },
                    None => {},
                }
                i = i + 1;
            }
            false
        },
        _ => false,
    }
}

fn any_structural(entries: &Vec<Spanned<SurfaceEntry>>) -> (b: bool)
    ensures
        b == has_structural(entries.deep_view()),
{
    broadcast use crate::model::group_models;

    let mut i: usize = 0;
    while i < entries.len()
        invariant
            i <= entries@.len(),
            forall|k: int|
                0 <= k < i ==> !((#[trigger] entries.deep_view()[k]).key is None
                    && structural_dict(entries.deep_view()[k].value.expr)),
        decreases entries@.len() - i,
    {
        assert(entries.deep_view()[i as int] == entries@[i as int].deep_view());
        if entries[i].node.key.is_none() && is_structural_dict(&entries[i].node.value.expr) {
            assert(entries.deep_view()[i as int].key is None);
            return true;
        }
        i = i + 1;
    }
    false
}

fn into_fn(frame: StackFrame, node: Arc<SurfaceNode>) -> (r: (StackFrame, Option<ParseError>))
    requires
        frame is Fn,
    ensures
        r.deep_view() == accept_fn(frame.deep_view(), node.deep_view()),
{
    broadcast use crate::model::group_models;

    match frame {
        StackFrame::Fn { mut params, mut body, return_ann, span_start, params_consumed } => {
            if params_consumed || body.len() > 0 {
                body.push(node);
                return (
                    StackFrame::Fn { params, body, return_ann, span_start, params_consumed },
                    None,
                );
            }
            match &node.expr {
                SurfaceExpression::Dict(entries) if entries.len() == 0 => (
                    StackFrame::Fn {
                        params,
                        body,
                        return_ann,
                        span_start,
                        params_consumed: true,
                    },
                    None,
                ),
                SurfaceExpression::LetDecl { bindings } => if all_params(bindings) {
                    push_params(&mut params, bindings);
                    (
                        StackFrame::Fn {
                            params,
                            body,
                            return_ann,
                            span_start,
                            params_consumed: true,
                        },
                        None,
                    )
                } else {
                    (
                        StackFrame::Fn { params, body, return_ann, span_start, params_consumed },
                        Some(
                            ParseError::plain(
                                "fn parameter list contains invalid binding patterns; each entry must be a name, name@Type, ...name, or _ wildcard",
                                &node.span,
                            ),
                        ),
                    )
                },
                _ => (
                    StackFrame::Fn { params, body, return_ann, span_start, params_consumed },
                    Some(
                        ParseError::helped(
                            "`[fn ...]` parameter bracket must start with `let` (e.g. `[fn [let x y] body]`)",
                            &node.span,
                            "change [fn [x y] body] to [fn [let x y] body]",
                        ),
                    ),
                ),
            }
        },
        other => (other, None),
    }
}

fn into_type(frame: StackFrame, node: Arc<SurfaceNode>) -> (r: (StackFrame, Option<ParseError>))
    requires
        frame is TypeAlias,
    ensures
        r.deep_view() == accept_type(frame.deep_view(), node.deep_view()),
{
    broadcast use crate::model::group_models;

    match frame {
        StackFrame::TypeAlias { mut params, mut type_exprs, pending_key, span_start } => {
            if pending_key.is_some() {
                let span: Span = node.span.clone();
                type_exprs.push(
                    Spanned { node: SurfaceEntry { key: pending_key, value: node }, span },
                );
                return (
                    StackFrame::TypeAlias { params, type_exprs, pending_key: None, span_start },
                    None,
                );
            }
            let first: bool = params.len() == 0 && type_exprs.len() == 0;
            let mut error: Option<ParseError> = None;
            if first {
                match &node.expr {
                    SurfaceExpression::LetDecl { bindings } => {
                        if all_lower_names(bindings) {
                            push_type_params(&mut params, bindings);
                            return (
                                StackFrame::TypeAlias {
                                    params,
                                    type_exprs,
                                    pending_key,
                                    span_start,
                                },
                                None,
                            );
                        }
                    },
                    _ => {},
                }
            }
            if first && is_bare_name_list(&node.expr) {
                error = Some(
                    ParseError::helped(
                        "`[type ...]` parameter bracket must start with `let` (e.g. `[type [let a b] Body]`)",
                        &node.span,
                        "change [type [a b] Body] to [type [let a b] Body]",
                    ),
                );
            } else if is_constructor_call(&node.expr) {
                let head: String = show_head(&node.expr);
                let mut message: String = join3(
                    "unexpected call form `[",
                    head.as_str(),
                    " ...]` inside `[type ...]`; named constructors use keyed entry syntax: `",
                );
                message.append(head.as_str());
                message.append(": [fields]`");
                error = Some(ParseError::plain(message.as_str(), &node.span));
            } else if is_structural_dict(&node.expr) && any_structural(&type_exprs) {
                error = Some(
                    ParseError::plain(
                        "structural alias must have exactly one body; use [or ...] for a union of structural types",
                        &node.span,
                    ),
                );
            } else {
                type_exprs.push(mk_positional(node));
            }
            (StackFrame::TypeAlias { params, type_exprs, pending_key, span_start }, error)
        },
        other => (other, None),
    }
}

fn into_syntax(frame: StackFrame, node: Arc<SurfaceNode>) -> (r: (StackFrame, Option<ParseError>))
    requires
        frame is SyntaxClass,
    ensures
        r.deep_view() == accept_syntax(frame.deep_view(), node.deep_view()),
{
    match frame {
        StackFrame::SyntaxClass { name, pattern, message, pending_key, span_start } => {
            if name.is_none() {
                return match &node.expr {
                    SurfaceExpression::VarRef { name: n, .. } => (
                        StackFrame::SyntaxClass {
                            name: Some(n.clone()),
                            pattern,
                            message,
                            pending_key,
                            span_start,
                        },
                        None,
                    ),
                    _ => (
                        StackFrame::SyntaxClass { name, pattern, message, pending_key, span_start },
                        Some(
                            ParseError::plain(
                                "syntax-class declaration requires a name (bare identifier)",
                                &node.span,
                            ),
                        ),
                    ),
                };
            }
            match pending_key {
                None => (
                    StackFrame::SyntaxClass {
                        name,
                        pattern,
                        message,
                        pending_key: Some(node),
                        span_start,
                    },
                    None,
                ),
                Some(key) => syntax_value(name, pattern, message, span_start, key, node),
            }
        },
        other => (other, None),
    }
}

fn syntax_value(
    name: Option<String>,
    pattern: Option<Arc<SurfaceNode>>,
    message: Option<String>,
    span_start: Span,
    key: Arc<SurfaceNode>,
    node: Arc<SurfaceNode>,
) -> (r: (StackFrame, Option<ParseError>))
    requires
        name is Some,
    ensures
        r.deep_view() == accept_syntax(
            FrameV::SyntaxClass {
                name: name.deep_view(),
                pattern: pattern.deep_view(),
                message: message.deep_view(),
                pending_key: Some(key.deep_view()),
                span_start: span_start.deep_view(),
            },
            node.deep_view(),
        ),
{
    let mut new_pattern: Option<Arc<SurfaceNode>> = pattern;
    let mut new_message: Option<String> = message;
    let mut error: Option<ParseError> = None;
    match key_name_of(&key) {
        Some(key_name) => {
            if text_is(&key_name, "pattern") {
                if new_pattern.is_some() {
                    error = Some(
                        ParseError::plain("syntax-class: duplicate 'pattern' key", &node.span),
                    );
                } else {
                    new_pattern = Some(node);
                }
            } else if text_is(&key_name, "message") {
                if new_message.is_some() {
                    error = Some(
                        ParseError::plain("syntax-class: duplicate 'message' key", &node.span),
                    );
                } else {
                    match &node.expr {
                        SurfaceExpression::StringLiteral { content, .. } => {
                            new_message = Some(content.clone());
                        },
                        _ => {
                            error = Some(
                                ParseError::plain(
                                    "syntax-class 'message' value must be a string literal",
                                    &node.span,
                                ),
                            );
                        },
                    }
                }
            } else {
                let text: String = join3(
                    "syntax-class: unknown key '",
                    key_name.as_str(),
                    "' (expected 'pattern' or 'message')",
                );
                error = Some(ParseError::plain(text.as_str(), &key.span));
            }
        },
        None => {
            error = Some(
                ParseError::plain("syntax-class keys must be bare identifiers", &key.span),
            );
        },
    }
    (
        StackFrame::SyntaxClass {
            name,
            pattern: new_pattern,
            message: new_message,
            pending_key: None,
            span_start,
        },
        error,
    )
}

/// Adds an expression to the body of the last arm.
pub(crate) fn extend_arms(arms: &mut Vec<SurfaceMatchArm>, node: Arc<SurfaceNode>)
    requires
        old(arms)@.len() > 0,
    ensures
        final(arms).deep_view() == extend_last_arm(old(arms).deep_view(), node.deep_view()),
{
    broadcast use crate::model::group_models;

    let ghost all = arms.deep_view();
    match arms.pop() {
        Some(arm) => {
            assert(all.last() == arm.deep_view());
            let mut body: Vec<Arc<SurfaceNode>> = arm.body;
            body.push(node);
            arms.push(
                SurfaceMatchArm {
                    pattern: arm.pattern,
                    let_bindings: arm.let_bindings,
                    guard: arm.guard,
                    body,
                },
            );
        },
        None => {},
    }
}

fn into_match(frame: StackFrame, node: Arc<SurfaceNode>) -> (r: (StackFrame, Option<ParseError>))
    requires
        frame is Match,
    ensures
        r.deep_view() == accept_match(frame.deep_view(), node.deep_view()),
{
    broadcast use crate::model::group_models;

    match frame {
        StackFrame::Match {
            scrutinee,
            mut arms,
            pending_pattern_expr,
            pending_pattern,
            span_start,
        } => {
            if scrutinee.is_none() {
                return (
                    StackFrame::Match {
                        scrutinee: Some(node),
                        arms,
                        pending_pattern_expr,
                        pending_pattern,
                        span_start,
                    },
                    None,
                );
            }
            match pending_pattern {
                Some((pattern, guard)) => {
                    let mut body: Vec<Arc<SurfaceNode>> = Vec::new();
                    body.push(node);
                    assert(body.deep_view() =~= seq![node.deep_view()]);
                    arms.push(SurfaceMatchArm { pattern, let_bindings: None, guard, body });
                    (
                        StackFrame::Match {
                            scrutinee,
                            arms,
                            pending_pattern_expr,
                            pending_pattern: None,
                            span_start,
                        },
                        None,
                    )
                },
                None => match pending_pattern_expr {
                    None => (
                        StackFrame::Match {
                            scrutinee,
                            arms,
                            pending_pattern_expr: Some(node),
                            pending_pattern: None,
                            span_start,
                        },
                        None,
                    ),
                    Some(earlier) => if arms.len() > 0 {
                        extend_arms(&mut arms, earlier);
                        (
                            StackFrame::Match {
                                scrutinee,
                                arms,
                                pending_pattern_expr: Some(node),
                                pending_pattern: None,
                                span_start,
                            },
                            None,
                        )
                    } else {
                        (
                            StackFrame::Match {
                                scrutinee,
                                arms,
                                pending_pattern_expr: None,
                                pending_pattern: None,
                                span_start,
                            },
                            Some(
                                ParseError::plain(
                                    "unexpected expression before first match arm (no pattern: body pair yet)",
                                    &earlier.span,
                                ),
                            ),
                        )
                    },
                },
            }
        },
        other => (other, None),
    }
}

fn into_class(frame: StackFrame, node: Arc<SurfaceNode>) -> (r: (StackFrame, Option<ParseError>))
    requires
        frame is ClassDecl,
    ensures
        r.deep_view() == accept_class(frame.deep_view(), node.deep_view()),
{
    broadcast use crate::model::group_models;

    match frame {
        StackFrame::ClassDecl {
            mut name,
            mut params,
            methods,
            pending_key,
            mut structural_metadata,
            span_start,
        } => {
            let mut error: Option<ParseError> = None;
            if name.is_none() {
                match &node.expr {
                    SurfaceExpression::LetDecl { bindings } => {
                        push_names(&mut params, bindings);
                        name = Some(String::new());
                    },
                    _ => {
                        error = Some(
                            ParseError::helped(
                                "class declaration requires [let ...] form (e.g. [class [let a] ...]); class name comes from the binding (e.g. MyClass: [class [let a] ...])",
                                &node.span,
                                "change [class [a] ...] to [class [let a] ...]",
                            ),
                        );
                    },
                }
            } else if structural_metadata.is_none() {
                let is_dict: bool = matches!(&node.expr, SurfaceExpression::Dict(_));
                if is_dict {
                    structural_metadata = Some(node);
                } else {
                    error = Some(
                        ParseError::plain(
                            "unexpected expression in class form (expected method: Type entries or structural metadata dict)",
                            &node.span,
                        ),
                    );
                }
            } else {
                error = Some(
                    ParseError::plain(
                        "unexpected expression in class form (expected method: Type entries)",
                        &node.span,
                    ),
                );
            }
            (
                StackFrame::ClassDecl {
                    name,
                    params,
                    methods,
                    pending_key,
                    structural_metadata,
                    span_start,
                },
                error,
            )
        },
        other => (other, None),
    }
}

fn into_instance(frame: StackFrame, node: Arc<SurfaceNode>) -> (r: (
    StackFrame,
    Option<ParseError>,
))
    requires
        frame is InstanceDecl,
    ensures
        r.deep_view() == accept_instance(frame.deep_view(), node.deep_view()),
{
    match frame {
        StackFrame::InstanceDecl {
            mut class_name,
            arms,
            mut pending_arm_pattern,
            pending_key,
            current_arm_methods,
            span_start,
        } => {
            let mut error: Option<ParseError> = None;
            if class_name.is_none() {
                class_name = Some(node);
            } else if pending_arm_pattern.is_none() {
                pending_arm_pattern = Some(node);
            } else {
                error = Some(
                    ParseError::plain(
                        "unexpected expression in instance form (expected colon after pattern)",
                        &node.span,
                    ),
                );
            }
            (
                StackFrame::InstanceDecl {
                    class_name,
                    arms,
                    pending_arm_pattern,
                    pending_key,
                    current_arm_methods,
                    span_start,
                },
                error,
            )
        },
        other => (other, None),
    }
}

/// Commits `key: rhs` inside `[let ...]`: pushes a name with a default value. A constructor is no
/// default, and only a name can have one.
pub fn commit_let_pending(
    key: &Arc<SurfaceNode>,
    rhs: Arc<SurfaceNode>,
    bindings: &mut Vec<Arc<SurfaceNode>>,
) -> (r: Result<(), ParseError>)
    ensures
        match (r, let_default(key.deep_view(), rhs.deep_view())) {
            (Ok(_), Ok(binding)) => final(bindings).deep_view() == old(bindings).deep_view().push(
                binding,
            ),
            (Err(e), Err(m)) => e.deep_view() == m && final(bindings).deep_view() == old(
                bindings,
            ).deep_view(),
            _ => false,
        },
{
    broadcast use crate::model::group_models;

    let span: Span = Span::between(&key.span, &rhs.span, &key.span.file);
    let path: Option<String> = dot_path_name(&rhs);
    let constructor: Option<String> = match path {
        Some(p) => if name_starts_upper(&p) {
            Some(p)
        } else {
            None
        },
        None => None,
    };
    match &key.expr {
        SurfaceExpression::VarRef { name, .. } => match constructor {
            Some(p) => {
                let mut message: String = join3(
                    "unexpected constructor `",
                    p.as_str(),
                    "` as value in `[let ...]` binding `",
                );
                message.append(name.as_str());
                message.append(": ...`; constructor names are not valid binding defaults");
                Err(ParseError::plain(message.as_str(), &span))
            },
            None => {
                let default_key: Arc<SurfaceNode> = mk_string(
                    "default".to_owned(),
                    key.span.clone(),
                );
                let entry_span: Span = rhs.span.clone();
                let entry: Spanned<SurfaceEntry> = Spanned {
                    node: SurfaceEntry { key: Some(default_key), value: rhs },
                    span: entry_span,
                };
                let ghost ev = entry.deep_view();
                let mut entries: Vec<Spanned<SurfaceEntry>> = Vec::new();
                entries.push(entry);
                assert(entries.deep_view() =~= seq![ev]);
                let annotation: Spanned<Annotation> = Spanned {
                    node: Annotation::PropertyDict(entries),
                    span: span.clone(),
                };
                assert(annotation.deep_view().ann == AnnV::PropertyDict(seq![ev]));
                bindings.push(
                    mk(
                        SurfaceExpression::VarRef {
                            name: name.clone(),
                            escaped: false,
                            annotation: Some(annotation),
                        },
                        span,
                    ),
                );
                Ok(())
            },
        },
        SurfaceExpression::LetDecl { .. } => match constructor {
            Some(_) => Err(
                ParseError::plain(
                    "unexpected `[...]: Constructor` form in `[let ...]` binding; constructor names are not valid binding defaults",
                    &rhs.span,
                ),
            ),
            None => Err(
                ParseError::plain(
                    "unexpected `[...]` binding group before `:` in `[let ...]`; binding groups cannot have default values",
                    &rhs.span,
                ),
            ),
        },
        _ => Err(
            ParseError::plain("unexpected form before `:` in [let ...] binding", &key.span),
        ),
    }
}

fn into_let(frame: StackFrame, node: Arc<SurfaceNode>) -> (r: (StackFrame, Option<ParseError>))
    requires
        frame is LetDecl,
    ensures
        r.deep_view() == accept_let(frame.deep_view(), node.deep_view()),
{
    broadcast use crate::model::group_models;

    match frame {
        StackFrame::LetDecl { mut bindings, pending_key, pending_rhs, span_start } => match (
            pending_key,
            pending_rhs,
        ) {
            (Some(key), Some(rhs)) => match commit_let_pending(&key, rhs, &mut bindings) {
                Ok(_) => {
                    bindings.push(node);
                    (
                        StackFrame::LetDecl {
                            bindings,
                            pending_key: None,
                            pending_rhs: None,
                            span_start,
                        },
                        None,
                    )
                },
                Err(e) => (
                    StackFrame::LetDecl {
                        bindings,
                        pending_key: None,
                        pending_rhs: None,
                        span_start,
                    },
                    Some(e),
                ),
            },
            (Some(key), None) => (
                StackFrame::LetDecl {
                    bindings,
                    pending_key: Some(key),
                    pending_rhs: Some(node),
                    span_start,
                },
                None,
            ),
            (None, _) => {
                bindings.push(node);
                (
                    StackFrame::LetDecl {
                        bindings,
                        pending_key: None,
                        pending_rhs: None,
                        span_start,
                    },
                    None,
                )
            },
        },
        other => (other, None),
    }
}

/// Hands an expression to an open form that no key is waiting in.
pub fn push_expr_to_parent(frame: StackFrame, node: Arc<SurfaceNode>) -> (r: (
    StackFrame,
    Option<ParseError>,
))
    ensures
        r.deep_view() == accept(frame.deep_view(), node.deep_view()),
{
    broadcast use crate::model::group_models;

    match frame {
        StackFrame::Dict {
            mut entries,
            pending_key,
            seen_keys,
            span_start,
            floating_annotation,
        } => {
            entries.push(mk_positional(node));
            (
                StackFrame::Dict {
                    entries,
                    pending_key,
                    seen_keys,
                    span_start,
                    floating_annotation,
                },
                None,
            )
        },
        StackFrame::Call { func, implied, mut args, pending_key, span_start } => {
            args.push(CallArg::Positional(node));
            (StackFrame::Call { func, implied, args, pending_key, span_start }, None)
        },
        StackFrame::Quote { expr, span_start } => if expr.is_some() {
            (
                StackFrame::Quote { expr, span_start },
                Some(ParseError::plain("quote form can only have one expression", &node.span)),
            )
        } else {
            (StackFrame::Quote { expr: Some(node), span_start }, None)
        },
        StackFrame::Unquote { expr, span_start } => if expr.is_some() {
            (
                StackFrame::Unquote { expr, span_start },
                Some(ParseError::plain("unquote form can only have one expression", &node.span)),
            )
        } else {
            (StackFrame::Unquote { expr: Some(node), span_start }, None)
        },
        StackFrame::UnquoteSplice { expr, span_start } => if expr.is_some() {
            (
                StackFrame::UnquoteSplice { expr, span_start },
                Some(
                    ParseError::plain(
                        "unquote-splice form can only have one expression",
                        &node.span,
                    ),
                ),
            )
        } else {
            (StackFrame::UnquoteSplice { expr: Some(node), span_start }, None)
        },
        StackFrame::PatternDecl { mut bindings, span_start } => {
            bindings.push(node);
            (StackFrame::PatternDecl { bindings, span_start }, None)
        },
        StackFrame::CaseDecl { let_bindings, pattern, mut body, span_start } => if let_bindings
            .is_none() {
            (
                StackFrame::CaseDecl { let_bindings: Some(node), pattern, body, span_start },
                None,
            )
        } else if pattern.is_none() {
            (
                StackFrame::CaseDecl { let_bindings, pattern: Some(node), body, span_start },
                None,
            )
        } else {
            body.push(node);
            (StackFrame::CaseDecl { let_bindings, pattern, body, span_start }, None)
        },
        StackFrame::Pipe { lhs, pipe_span } => (StackFrame::Pipe { lhs, pipe_span }, None),
        StackFrame::AnnotationCollect { target, value, span_start } => if value.is_some() {
            (
                StackFrame::AnnotationCollect { target, value, span_start },
                Some(ParseError::plain("annotation accepts only one expression", &node.span)),
            )
        } else {
            (
                StackFrame::AnnotationCollect { target, value: Some(node), span_start },
                None,
            )
        },
        other => match &other {
            StackFrame::Fn { .. } => into_fn(other, node),
            StackFrame::TypeAlias { .. } => into_type(other, node),
            StackFrame::SyntaxClass { .. } => into_syntax(other, node),
            StackFrame::Match { .. } => into_match(other, node),
            StackFrame::ClassDecl { .. } => into_class(other, node),
            StackFrame::InstanceDecl { .. } => into_instance(other, node),
            _ => into_let(other, node),
        },
    }
}

fn normalized_key(key: Arc<SurfaceNode>) -> (r: Arc<SurfaceNode>)
    ensures
        r.deep_view() == normal_key(key.deep_view()),
{
    let plain: Option<String> = match &key.expr {
        SurfaceExpression::VarRef { name, escaped, annotation } => if !*escaped
            && annotation.is_none() {
            Some(name.clone())
        } else {
            None
        },
        _ => None,
    };
    match plain {
        Some(name) => mk_string(name, key.span.clone()),
        None => key,
    }
}

fn into_dict(frame: StackFrame, node: Arc<SurfaceNode>) -> (r: (StackFrame, Option<ParseError>))
    requires
        frame is Dict,
    ensures
        r.deep_view() == place_in_dict(frame.deep_view(), node.deep_view()),
{
    broadcast use crate::model::group_models;

    match frame {
        StackFrame::Dict {
            mut entries,
            pending_key,
            mut seen_keys,
            span_start,
            floating_annotation,
        } => match pending_key {
            None => {
                entries.push(mk_positional(node));
                (
                    StackFrame::Dict {
                        entries,
                        pending_key: None,
                        seen_keys,
                        span_start,
                        floating_annotation,
                    },
                    None,
                )
            },
            Some(raw) => {
                let key: Arc<SurfaceNode> = normalized_key(raw);
                let text: Option<String> = key_to_string(&key.expr);
                let span_name: Option<Arc<String>> = match text {
                    Some(t) => {
                        if seen_keys.contains(t.as_str()) {
                            let message: String = join3("duplicate key \"", t.as_str(), "\"");
                            let error: ParseError = ParseError::plain(message.as_str(), &key.span);
                            return (
                                StackFrame::Dict {
                                    entries,
                                    pending_key: None,
                                    seen_keys,
                                    span_start,
                                    floating_annotation,
                                },
                                Some(error),
                            );
                        }
                        let kept: String = t.clone();
                        seen_keys.insert(t);
                        Some(Arc::new(kept))
                    },
                    None => None,
                };
                let value: Arc<SurfaceNode> = inject_class_name_from_key(node, &key);
                let mut span: Span = Span::between(&key.span, &value.span, &key.span.file);
                span.name = span_name;
                entries.push(Spanned { node: SurfaceEntry { key: Some(key), value }, span });
                (
                    StackFrame::Dict {
                        entries,
                        pending_key: None,
                        seen_keys,
                        span_start,
                        floating_annotation,
                    },
                    None,
                )
            },
        },
        other => (other, None),
    }
}

fn into_call(frame: StackFrame, node: Arc<SurfaceNode>) -> (r: (StackFrame, Option<ParseError>))
    requires
        frame is Call,
    ensures
        r.deep_view() == place_in_call(frame.deep_view(), node.deep_view()),
{
    broadcast use crate::model::group_models;

    match frame {
        StackFrame::Call { func, implied, mut args, pending_key, span_start } => match pending_key {
            Some((name, _, ann)) => {
                args.push(CallArg::Named(name, node, ann));
                (StackFrame::Call { func, implied, args, pending_key: None, span_start }, None)
            },
            None => if func.is_none() && args.len() == 0 {
                (
                    StackFrame::Call {
                        func: Some(node),
                        implied,
                        args,
                        pending_key: None,
                        span_start,
                    },
                    None,
                )
            } else {
                args.push(CallArg::Positional(node));
                (StackFrame::Call { func, implied, args, pending_key: None, span_start }, None)
            },
        },
        other => (other, None),
    }
}

fn mk_keyed(key: Arc<SurfaceNode>, value: Arc<SurfaceNode>) -> (r: Spanned<SurfaceEntry>)
    ensures
        r.deep_view() == keyed(key.deep_view(), value.deep_view()),
{
    let span: Span = Span::between(&key.span, &value.span, &key.span.file);
    Spanned { node: SurfaceEntry { key: Some(key), value }, span }
}

fn class_value(frame: StackFrame, node: Arc<SurfaceNode>) -> (r: (StackFrame, Option<ParseError>))
    requires
        frame is ClassDecl,
    ensures
        r.deep_view() == place_in_class(frame.deep_view(), node.deep_view()),
{
    broadcast use crate::model::group_models;

    match frame {
        StackFrame::ClassDecl {
            name,
            params,
            mut methods,
            pending_key,
            structural_metadata,
            span_start,
        } => match (name, pending_key) {
            (Some(name), Some(key)) => {
                methods.push(mk_keyed(key, node));
                (
                    StackFrame::ClassDecl {
                        name: Some(name),
                        params,
                        methods,
                        pending_key: None,
                        structural_metadata,
                        span_start,
                    },
                    None,
                )
            },
            (name, pending_key) => into_class(
                StackFrame::ClassDecl {
                    name,
                    params,
                    methods,
                    pending_key,
                    structural_metadata,
                    span_start,
                },
                node,
            ),
        },
        other => (other, None),
    }
}

fn instance_value(frame: StackFrame, node: Arc<SurfaceNode>) -> (r: (
    StackFrame,
    Option<ParseError>,
))
    requires
        frame is InstanceDecl,
    ensures
        r.deep_view() == place_in_instance(frame.deep_view(), node.deep_view()),
{
    broadcast use crate::model::group_models;

    match frame {
        StackFrame::InstanceDecl {
            class_name,
            arms,
            pending_arm_pattern,
            pending_key,
            mut current_arm_methods,
            span_start,
        } => {
            if class_name.is_some() {
                match pending_key {
                    Some(key) => {
                        current_arm_methods.push(mk_keyed(key, node));
                        return (
                            StackFrame::InstanceDecl {
                                class_name,
                                arms,
                                pending_arm_pattern,
                                pending_key: None,
                                current_arm_methods,
                                span_start,
                            },
                            None,
                        );
                    },
                    None => {},
                }
                if pending_arm_pattern.is_none() && arms.len() > 0 {
                    match &node.expr {
                        SurfaceExpression::Dict(entries) => {
                            let mut copies: Vec<Spanned<SurfaceEntry>> = clone_entries(entries);
                            current_arm_methods.append(&mut copies);
                            return (
                                StackFrame::InstanceDecl {
                                    class_name,
                                    arms,
                                    pending_arm_pattern,
                                    pending_key: None,
                                    current_arm_methods,
                                    span_start,
                                },
                                None,
                            );
                        },
                        _ => {},
                    }
                }
                into_instance(
                    StackFrame::InstanceDecl {
                        class_name,
                        arms,
                        pending_arm_pattern,
                        pending_key: None,
                        current_arm_methods,
                        span_start,
                    },
                    node,
                )
            } else {
                into_instance(
                    StackFrame::InstanceDecl {
                        class_name,
                        arms,
                        pending_arm_pattern,
                        pending_key,
                        current_arm_methods,
                        span_start,
                    },
                    node,
                )
            }
        },
        other => (other, None),
    }
}

fn into_frame(frame: StackFrame, node: Arc<SurfaceNode>) -> (r: (StackFrame, Option<ParseError>))
    ensures
        r.deep_view() == place(frame.deep_view(), node.deep_view()),
{
    match &frame {
        StackFrame::Dict { .. } => into_dict(frame, node),
        StackFrame::Call { .. } => into_call(frame, node),
        StackFrame::ClassDecl { .. } => class_value(frame, node),
        StackFrame::InstanceDecl { .. } => instance_value(frame, node),
        _ => push_expr_to_parent(frame, node),
    }
}

/// Puts an expression into the innermost open form, or into the document where none is open.
pub fn push_value(
    stack: &mut Vec<StackFrame>,
    items: &mut Vec<SurfaceItem>,
    node: Arc<SurfaceNode>,
) -> (r: Result<(), ParseError>)
    ensures
        ({
            let p = placed(old(stack).deep_view(), old(items).deep_view(), node.deep_view());
            &&& final(stack).deep_view() == p.stack
            &&& final(items).deep_view() == p.items
            &&& match (r, p.error) {
                (Ok(_), None) => true,
                (Err(e), Some(m)) => e.deep_view() == m,
                _ => false,
            }
        }),
    decreases old(stack)@.len(),
{
    broadcast use crate::model::group_models;

    let ghost frames = stack.deep_view();
    match stack.pop() {
        None => {
            items.push(SurfaceItem::Expr(node));
            Ok(())
        },
        Some(frame) => {
            assert(frames.last() == frame.deep_view());
            assert(stack.deep_view() == frames.drop_last());
            match frame {
                StackFrame::Pipe { lhs, pipe_span } => {
                    let span: Span = Span::between(&pipe_span, &node.span, &node.span.file);
                    let pipe: Arc<SurfaceNode> = mk(
                        SurfaceExpression::Pipe { lhs, rhs: node, pipe_span: Some(pipe_span) },
                        span,
                    );
                    assert(pipe.deep_view() == pipe_node(
                        lhs.deep_view(),
                        pipe_span.deep_view(),
                        node.deep_view(),
                    ));
                    push_value(stack, items, pipe)
                },
                other => {
                    let (changed, error) = into_frame(other, node);
                    stack.push(changed);
                    match error {
                        Some(e) => Err(e),
                        None => Ok(()),
                    }
                },
            }
        },
    }
}

/// The parameters of a function come in `[let ...]`: another first expression than that or an empty
/// dict is an error, and the form stays as it is.
pub proof fn parameters_need_let(f: FrameV, node: NodeV)
    requires
        f is Fn,
        !f->Fn_params_consumed,
        f->Fn_body.len() == 0,
        !(node.expr is LetDecl),
        !(node.expr matches ExprV::Dict(entries) && entries.len() == 0),
    ensures
        place(f, node).1 is Some,
        place(f, node).0 == f,
{
}

/// A key that a dict has seen is refused, and the entries of the dict stay as they are.
pub proof fn duplicate_keys_are_refused(f: FrameV, node: NodeV, text: Text)
    requires
        f is Dict,
        f->Dict_pending_key is Some,
        key_text(normal_key(f->Dict_pending_key->0).expr) == Some(text),
        f->Dict_seen_keys.contains(text),
    ensures
        place(f, node).1 == Some(
            plain_err(
                "duplicate key \""@ + text + "\""@,
                normal_key(f->Dict_pending_key->0).span,
            ),
        ),
        place(f, node).0 is Dict,
        place(f, node).0->Dict_entries == f->Dict_entries,
        place(f, node).0->Dict_seen_keys == f->Dict_seen_keys,
{
}

} // verus!
