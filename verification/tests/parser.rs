use std::sync::Arc;
use tinct::ast::{
    Annotation, DotKey, Span, SurfaceDeclaration, SurfaceDocument, SurfaceExpression, SurfaceItem,
    SurfaceNode,
};
use tinct::diagnostic::{DiagnosticLevel, TypeDiagnostic};
use tinct::lexer::{tokenize, Token};
use tinct::node::expression_to_annotation;
use tinct::open::MAX_PARSE_DEPTH;
use tinct::parser::{parse, parse_with_recovery};
use tinct::report::format_parse_error;
use tinct::stream::skip_to_closing_bracket;

fn test_file(_src: &str) -> Arc<String> {
    Arc::new("test.llt".to_string())
}

fn parse_surf_node(input: &str) -> Arc<SurfaceNode> {
    let output = parse(input, test_file(input)).expect("parse failed");
    let first_doc = &output.program.documents[0].node;
    match first_doc.items.first() {
        Some(SurfaceItem::Expr(node)) => Arc::clone(node),
        _ => panic!("first item is not an expression"),
    }
}

fn surf_items(surf_doc: &SurfaceDocument) -> Vec<Arc<SurfaceNode>> {
    surf_doc
        .items
        .iter()
        .filter_map(|item| match item {
            SurfaceItem::Expr(node) => Some(Arc::clone(node)),
            SurfaceItem::Decl(_) => None,
        })
        .collect()
}

#[test]
fn parser_test_empty_dict() {
    let src = "[]";
    let output = parse(src, test_file(src)).expect("parse failed");
    let items = surf_items(&output.program.documents[0].node);
    assert_eq!(items.len(), 1);
    match &items[0].expr {
        SurfaceExpression::Dict(entries) => {
            assert_eq!(entries.len(), 0);
        }
        other => panic!("expected Dict, got {other:?}"),
    }
}

#[test]
fn parser_test_dict_one_value() {
    let src = "[42]";
    let output = parse(src, test_file(src)).expect("parse failed");
    let items = surf_items(&output.program.documents[0].node);
    assert_eq!(items.len(), 1);
    match &items[0].expr {
        SurfaceExpression::Dict(entries) => {
            assert_eq!(entries.len(), 1);
            assert!(entries[0].node.key.is_none());
            assert!(matches!(
                &entries[0].node.value.expr,
                SurfaceExpression::Int(42)
            ));
        }
        other => panic!("expected Dict, got {other:?}"),
    }
}

#[test]
fn parser_test_keyed_entry() {
    let src = "[a: 1 b: 2]";
    let output = parse(src, test_file(src)).expect("parse failed");
    let items = surf_items(&output.program.documents[0].node);
    match &items[0].expr {
        SurfaceExpression::Dict(entries) => {
            assert_eq!(entries.len(), 2);
            assert!(entries[0].node.key.is_some());
            match &entries[0].node.key.as_ref().unwrap().expr {
                SurfaceExpression::StringLiteral { content: s, .. } => assert_eq!(s, "a"),
                other => panic!("expected key 'a', got {other:?}"),
            }
            assert!(matches!(
                &entries[0].node.value.expr,
                SurfaceExpression::Int(1)
            ));
            assert!(entries[1].node.key.is_some());
            match &entries[1].node.key.as_ref().unwrap().expr {
                SurfaceExpression::StringLiteral { content: s, .. } => assert_eq!(s, "b"),
                other => panic!("expected key 'b', got {other:?}"),
            }
            assert!(matches!(
                &entries[1].node.value.expr,
                SurfaceExpression::Int(2)
            ));
        }
        other => panic!("expected Dict, got {other:?}"),
    }
}

#[test]
fn parser_test_call_simple() {
    let src = "[call $f 1 2]";
    let output = parse(src, test_file(src)).expect("parse failed");
    let items = surf_items(&output.program.documents[0].node);
    match &items[0].expr {
        SurfaceExpression::Call {
            func,
            args,
            named_args,
            ..
        } => {
            match &func.expr {
                SurfaceExpression::VarRef { name, .. } => assert_eq!(name, "f"),
                other => panic!("expected VarRef for func, got {other:?}"),
            }
            assert_eq!(args.len(), 2);
            assert!(matches!(&args[0].expr, SurfaceExpression::Int(1)));
            assert!(matches!(&args[1].expr, SurfaceExpression::Int(2)));
            assert_eq!(named_args.len(), 0);
        }
        other => panic!("expected Call, got {other:?}"),
    }
}

#[test]
fn parser_test_call_named_args() {
    let src = "[call $f x: 1]";
    let output = parse(src, test_file(src)).expect("parse failed");
    let items = surf_items(&output.program.documents[0].node);
    match &items[0].expr {
        SurfaceExpression::Call {
            func,
            args,
            named_args,
            ..
        } => {
            match &func.expr {
                SurfaceExpression::VarRef { name, .. } => assert_eq!(name, "f"),
                other => panic!("expected VarRef for func, got {other:?}"),
            }
            assert_eq!(args.len(), 0);
            assert_eq!(named_args.len(), 1);
            assert_eq!(named_args[0].node.name, "x");
            assert!(matches!(
                &named_args[0].node.value.expr,
                SurfaceExpression::Int(1)
            ));
        }
        other => panic!("expected Call, got {other:?}"),
    }
}

#[test]
fn parser_test_fn_simple() {
    let src = "[fn [let] 42]";
    let output = parse(src, test_file(src)).expect("parse failed");
    let items = surf_items(&output.program.documents[0].node);
    match &items[0].expr {
        SurfaceExpression::Fn {
            params,
            body,
            return_ann,
            desugared,
        } => {
            assert_eq!(params.len(), 0);
            assert!(matches!(&body.expr, SurfaceExpression::Int(42)));
            assert!(return_ann.is_none());
            assert!(!*desugared);
        }
        other => panic!("expected Fn, got {other:?}"),
    }
}

#[test]
fn parser_test_type_alias() {
    let src = "[type 42]";
    let output = parse(src, test_file(src)).expect("parse failed");
    let items = &output.program.documents[0].node.items;
    assert_eq!(items.len(), 1, "expected one item");
    match &items[0] {
        SurfaceItem::Decl(decl) => match &decl.node {
            SurfaceDeclaration::TypeAlias { params, body } => {
                assert!(params.is_empty());
                assert!(matches!(&body.expr, SurfaceExpression::Int(42)));
            }
            other => panic!("expected TypeAlias declaration, got {other:?}"),
        },
        other => panic!("expected Decl item, got {other:?}"),
    }
}

#[test]
fn test_type_alias_in_dict_entry_value() {
    let src = "[Name: [type String]]";
    let output = parse(src, test_file(src)).expect("parse failed");
    let items = surf_items(&output.program.documents[0].node);
    assert_eq!(items.len(), 1, "expected one expression item");
    match &items[0].expr {
        SurfaceExpression::Dict(entries) => {
            assert_eq!(entries.len(), 1, "expected one dict entry");
            match entries[0].node.key.as_ref().map(|k| &k.expr) {
                Some(SurfaceExpression::StringLiteral { content: s, .. }) => {
                    assert_eq!(s, "Name")
                }
                other => panic!("expected Str key 'Name', got {other:?}"),
            }
            match &entries[0].node.value.expr {
                SurfaceExpression::Decl(decl) => match decl.as_ref() {
                    SurfaceDeclaration::TypeAlias { params, body } => {
                        assert!(params.is_empty(), "expected no type params");
                        assert!(
                            matches!(&body.expr, SurfaceExpression::VarRef { name, .. } if name == "String"),
                            "expected VarRef(\"String\") body, got {:?}",
                            body.expr
                        );
                    }
                    other => panic!("expected TypeAlias declaration, got {other:?}"),
                },
                other => panic!("expected Decl value, got {other:?}"),
            }
        }
        other => panic!("expected Dict, got {other:?}"),
    }

    let src2 = "[Result: [type A B C]]";
    let output = parse(src2, test_file(src2)).expect("parse failed");
    let items = surf_items(&output.program.documents[0].node);
    match &items[0].expr {
        SurfaceExpression::Dict(entries) => {
            assert_eq!(entries.len(), 1);
            match entries[0].node.key.as_ref().map(|k| &k.expr) {
                Some(SurfaceExpression::StringLiteral { content: s, .. }) => {
                    assert_eq!(s, "Result")
                }
                other => panic!("expected Str key 'Result', got {other:?}"),
            }
            match &entries[0].node.value.expr {
                SurfaceExpression::Decl(decl) => match decl.as_ref() {
                    SurfaceDeclaration::TypeAlias { params, body } => {
                        assert!(params.is_empty());
                        match &body.expr {
                            SurfaceExpression::Dict(body_entries) => {
                                assert_eq!(body_entries.len(), 3, "expected 3 body entries");
                                for entry in body_entries {
                                    assert!(
                                        entry.node.key.is_none(),
                                        "body entries must be positional"
                                    );
                                }
                            }
                            other => panic!("expected Dict body, got {other:?}"),
                        }
                    }
                    other => panic!("expected TypeAlias, got {other:?}"),
                },
                other => panic!("expected Decl value, got {other:?}"),
            }
        }
        other => panic!("expected Dict, got {other:?}"),
    }

    let src3 = "[Pair: [type [let a b] First: [first: a] Second: [second: b]]]";
    let output = parse(src3, test_file(src3)).expect("parse failed");
    let items = surf_items(&output.program.documents[0].node);
    match &items[0].expr {
        SurfaceExpression::Dict(entries) => {
            assert_eq!(entries.len(), 1);
            match &entries[0].node.value.expr {
                SurfaceExpression::Decl(decl) => match decl.as_ref() {
                    SurfaceDeclaration::TypeAlias { params, body } => {
                        assert_eq!(params.len(), 2, "expected 2 type params (a, b)");
                        match &body.expr {
                            SurfaceExpression::Dict(body_entries) => {
                                assert_eq!(body_entries.len(), 2, "expected 2 body entries");
                            }
                            other => panic!("expected Dict body, got {other:?}"),
                        }
                    }
                    other => panic!("expected TypeAlias, got {other:?}"),
                },
                other => panic!("expected Decl value, got {other:?}"),
            }
        }
        other => panic!("expected Dict, got {other:?}"),
    }
}

#[test]
fn parser_test_literal_int() {
    let expr = parse_surf_node("42");
    assert!(matches!(expr.expr, SurfaceExpression::Int(42)));
}

#[test]
fn parser_test_depth_limit() {
    let mut input = String::new();
    for _ in 0..MAX_PARSE_DEPTH {
        input.push('[');
    }
    input.push('[');
    for _ in 0..=MAX_PARSE_DEPTH {
        input.push(']');
    }

    let err = parse(&input, test_file(&input)).unwrap_err();
    assert!(
        err.message.contains("maximum nesting depth exceeded"),
        "expected depth-limit error message, got: {}",
        err.message
    );
}

#[test]
fn test_depth_limit_well_below_maximum_succeeds() {
    const DEPTH: usize = 200;
    assert!(DEPTH < MAX_PARSE_DEPTH, "test depth must be less than MAX_PARSE_DEPTH");

    let mut input = String::new();
    for _ in 0..DEPTH {
        input.push('[');
    }
    input.push('1');
    for _ in 0..DEPTH {
        input.push(']');
    }

    let result = parse(&input, test_file(&input));
    assert!(
        result.is_ok(),
        "parsing {DEPTH} levels of nesting should succeed (limit is {MAX_PARSE_DEPTH}), got: {:?}",
        result.unwrap_err()
    );
}

#[test]
fn test_depth_limit_at_exact_boundary_succeeds() {
    let mut input = String::new();
    for _ in 0..MAX_PARSE_DEPTH {
        input.push('[');
    }
    input.push('1');
    for _ in 0..MAX_PARSE_DEPTH {
        input.push(']');
    }

    let result = parse(&input, test_file(&input));
    assert!(
        result.is_ok(),
        "exactly MAX_PARSE_DEPTH levels should succeed (check fires before push), got: {:?}",
        result.unwrap_err()
    );
}

#[test]
fn parser_test_type_assert_simple() {
    let src = "[@Number 42]";
    let output = parse(src, test_file(src)).expect("parse failed");
    let items = surf_items(&output.program.documents[0].node);
    match &items[0].expr {
        SurfaceExpression::TypeAssert {
            annotation, expr, ..
        } => {
            match &annotation.node {
                Annotation::Simple(name) => assert_eq!(name, "Number"),
                other => panic!("expected Simple annotation, got {other:?}"),
            }
            assert!(matches!(&expr.expr, SurfaceExpression::Int(42)));
        }
        other => panic!("expected TypeAssert, got {other:?}"),
    }
}

#[test]
fn test_bracket_access_removed_parses_as_two_expressions() {
    let src = "$a[0]";
    let output = parse(src, test_file(src)).expect("parse failed");
    let items = surf_items(&output.program.documents[0].node);
    assert_eq!(items.len(), 2);
    match &items[0].expr {
        SurfaceExpression::VarRef { name, .. } => assert_eq!(name, "a"),
        other => panic!("expected VarRef, got {other:?}"),
    }
    match &items[1].expr {
        SurfaceExpression::Dict(entries) => {
            assert_eq!(entries.len(), 1);
            assert!(matches!(
                &entries[0].node.value.expr,
                SurfaceExpression::Int(0)
            ));
        }
        other => panic!("expected Dict, got {other:?}"),
    }
}

#[test]
fn parser_test_call_empty() {
    let src = "[call]";
    let output = parse(src, test_file(src)).expect("recovery should succeed");
    assert!(
        !output.diagnostics.is_empty(),
        "expected recovered error for empty call form"
    );
    assert!(
        output.diagnostics[0].message.contains("call form requires"),
        "expected error about call form requiring a function, got: {}",
        output.diagnostics[0].message
    );
}

#[test]
fn parser_test_call_func_as_named_arg() {
    let src = "[call f: $x]";
    let output = parse(src, test_file(src)).expect("recovery should succeed");
    assert!(
        !output.diagnostics.is_empty(),
        "expected recovered error for named-arg func"
    );
    assert!(
        output.diagnostics[0].message.contains("named argument"),
        "expected error about named argument, got: {}",
        output.diagnostics[0].message
    );
}

#[test]
fn parser_test_dict_pending_key_no_value() {
    let src = "[a:]";
    let output = parse(src, test_file(src)).expect("recovery should succeed");
    assert!(
        !output.diagnostics.is_empty(),
        "expected recovered error for key without value"
    );
    assert!(
        output.diagnostics[0].message.contains("key without value"),
        "expected 'key without value' error, got: {}",
        output.diagnostics[0].message
    );
}

#[test]
fn parser_test_call_pending_named_arg_no_value() {
    let src = "[call $f x:]";
    let output = parse(src, test_file(src)).expect("recovery should succeed");
    assert!(
        !output.diagnostics.is_empty(),
        "expected recovered error for named arg without value"
    );
    assert!(
        output.diagnostics[0].message.contains("without value"),
        "expected 'without value' error for named arg, got: {}",
        output.diagnostics[0].message
    );
}

#[test]
fn parser_test_type_alias_empty() {
    let src = "[type]";
    let output = parse(src, test_file(src)).expect("recovery should succeed");
    assert!(
        !output.diagnostics.is_empty(),
        "expected recovered error for empty type-alias"
    );
    assert!(
        output.diagnostics[0]
            .message
            .contains("type-alias form requires"),
        "expected error about type-alias requiring a type expression, got: {}",
        output.diagnostics[0].message
    );
}

#[test]
fn parser_test_type_assert_no_annotation() {
    let output = parse_with_recovery("[@]");
    assert!(
        !output.diagnostics.is_empty(),
        "expected recovered error for bare @ with no annotation"
    );
    assert!(
        output.diagnostics[0].message.contains("unclosed bracket")
            || output.diagnostics[0].message.contains("extra annotation")
            || output.diagnostics[0].message.contains("annotation"),
        "expected error related to unclosed bracket or annotation, got: {}",
        output.diagnostics[0].message
    );
}

#[test]
fn parser_test_type_assert_no_expr() {
    let src = "[@Number]";
    let output = parse(src, test_file(src)).expect("recovery should succeed");
    assert!(
        !output.diagnostics.is_empty(),
        "expected recovered error for type-assert without expression"
    );
    assert!(
        output.diagnostics[0].message.contains("type-assert form")
            && output.diagnostics[0]
                .message
                .contains("requires an expression"),
        "expected error about missing expression, got: {}",
        output.diagnostics[0].message
    );
}

#[test]
fn parser_test_colon_outside_dict_call() {
    let src = "[fn :]";
    let output = parse(src, test_file(src)).expect("recovery should succeed");
    assert!(
        !output.diagnostics.is_empty(),
        "expected recovered error for colon in fn form"
    );
    assert!(
        output.diagnostics[0].message.contains("key without value")
            || output.diagnostics[0].message.contains("`:` without a key")
            || output.diagnostics[0]
                .message
                .contains("`:` is not valid inside a")
            || output.diagnostics[0]
                .message
                .contains("`:` at document top level"),
        "expected key-related error for [fn :], got: {}",
        output.diagnostics[0].message
    );
    let src2 = "[type x :]";
    let output2 = parse(src2, test_file(src2)).expect("recovery should succeed");
    assert!(
        !output2.diagnostics.is_empty(),
        "expected recovered error for colon in type-alias form"
    );
    assert!(
        output2.diagnostics[0]
            .message
            .contains("`:` is not valid inside a type form")
            || output2.diagnostics[0]
                .message
                .contains("must follow an uppercase constructor name"),
        "expected error about colon in wrong context for [type x :], got: {}",
        output2.diagnostics[0].message
    );
}

#[test]
fn parser_test_colon_without_key_in_dict() {
    let src = "[:]";
    let output = parse(src, test_file(src)).expect("recovery should succeed");
    assert!(
        !output.diagnostics.is_empty(),
        "expected recovered error for colon without key"
    );
    assert!(
        output.diagnostics[0].message.contains("`:` without a key"),
        "expected error about colon without key, got: {}",
        output.diagnostics[0].message
    );
}

#[test]
fn parser_test_fn_multiple_bodies() {
    let src = "[fn [let] 1 2]";
    let output = parse(src, test_file(src)).expect("parse should succeed");
    assert!(
        output.diagnostics.is_empty(),
        "multi-expression fn bodies should parse successfully via Sequential, got errors: {:?}",
        output.diagnostics
    );
    let items = surf_items(&output.program.documents[0].node);
    let expr = &items[0].expr;
    match expr {
        SurfaceExpression::Fn { body, .. } => match &body.expr {
            SurfaceExpression::Sequential(exprs) => {
                assert_eq!(exprs.len(), 2, "expected 2 expressions in Sequential body");
            }
            other => panic!("expected Sequential body, got: {other:?}"),
        },
        other => panic!("expected Fn expression, got: {other:?}"),
    }
}

#[test]
fn parser_test_type_alias_multiple_exprs() {
    let src = "[type 1 2]";
    let output = parse(src, test_file(src)).expect("parse should succeed");
    assert!(
        output.diagnostics.is_empty(),
        "multi-entry [type T1 T2 ...] should parse without errors, got: {:?}",
        output.diagnostics
    );
    let items = &output.program.documents[0].node.items;
    assert_eq!(items.len(), 1, "expected one item");
    match &items[0] {
        SurfaceItem::Decl(decl) => match &decl.node {
            SurfaceDeclaration::TypeAlias { params, body } => {
                assert!(params.is_empty());
                match &body.expr {
                    SurfaceExpression::Dict(entries) => {
                        assert_eq!(entries.len(), 2, "expected 2 positional entries");
                        assert!(
                            entries[0].node.key.is_none(),
                            "entries should be auto-indexed"
                        );
                        assert!(
                            entries[1].node.key.is_none(),
                            "entries should be auto-indexed"
                        );
                    }
                    other => {
                        panic!("expected Dict body for multi-entry type alias, got {other:?}")
                    }
                }
            }
            other => panic!("expected TypeAlias declaration, got {other:?}"),
        },
        other => panic!("expected Decl item, got {other:?}"),
    }
}

#[test]
fn test_type_alias_bare_name_params_rejected() {
    let src = "[type [a b] Int]";
    let output = parse(src, test_file(src)).expect("recovery should succeed");
    assert!(
        !output.diagnostics.is_empty(),
        "expected error for [type [a b] Int] (missing `let`), got no errors"
    );
    assert!(
        output.diagnostics[0].message.contains("must start with"),
        "expected error about missing `let`, got: {}",
        output.diagnostics[0].message
    );
}

#[test]
fn test_type_alias_bare_name_single_param_rejected() {
    let src = "[type [a] Int]";
    let output = parse(src, test_file(src)).expect("recovery should succeed");
    assert!(
        !output.diagnostics.is_empty(),
        "expected error for [type [a] Int] (missing `let`), got no errors"
    );
    assert!(
        output.diagnostics[0].message.contains("must start with"),
        "expected error about missing `let`, got: {}",
        output.diagnostics[0].message
    );
}

#[test]
fn test_type_alias_let_params_accepted() {
    let src = "[type [let a b] Int]";
    let output = parse(src, test_file(src)).expect("parse failed");
    assert!(
        output.diagnostics.is_empty(),
        "[type [let a b] Body] should parse without errors, got: {:?}",
        output.diagnostics
    );
    let items = &output.program.documents[0].node.items;
    assert_eq!(items.len(), 1, "expected one item");
    match &items[0] {
        SurfaceItem::Decl(decl) => match &decl.node {
            SurfaceDeclaration::TypeAlias { params, .. } => {
                assert_eq!(params.len(), 2, "expected 2 params");
                assert_eq!(params[0], ("a".to_string(), None));
                assert_eq!(params[1], ("b".to_string(), None));
            }
            other => panic!("expected TypeAlias declaration, got {other:?}"),
        },
        other => panic!("expected Decl item, got {other:?}"),
    }
}

#[test]
fn test_type_alias_let_zero_params_accepted() {
    let output =
        parse("[type [let] Int]", test_file("[type [let] Int]")).expect("parse failed");
    assert!(
        output.diagnostics.is_empty(),
        "[type [let] Body] should parse without errors, got: {:?}",
        output.diagnostics
    );
    let items = &output.program.documents[0].node.items;
    match &items[0] {
        SurfaceItem::Decl(decl) => match &decl.node {
            SurfaceDeclaration::TypeAlias { params, .. } => {
                assert!(params.is_empty(), "expected 0 params, got {:?}", params);
            }
            other => panic!("expected TypeAlias declaration, got {other:?}"),
        },
        other => panic!("expected Decl item, got {other:?}"),
    }
}

#[test]
fn test_type_alias_uppercase_type_expr_not_flagged() {
    let output =
        parse("[type [or Int Null]]", test_file("[type [or Int Null]]")).expect("parse failed");
    assert!(
        output.diagnostics.is_empty(),
        "[type [or Int Null]] should parse without errors, got: {:?}",
        output.diagnostics
    );
    let items = &output.program.documents[0].node.items;
    match &items[0] {
        SurfaceItem::Decl(decl) => match &decl.node {
            SurfaceDeclaration::TypeAlias { params, .. } => {
                assert!(
                    params.is_empty(),
                    "expected 0 params (type expr, not param list), got {:?}",
                    params
                );
            }
            other => panic!("expected TypeAlias declaration, got {other:?}"),
        },
        other => panic!("expected Decl item, got {other:?}"),
    }
}

#[test]
fn parser_test_type_assert_multiple_exprs() {
    let output =
        parse("[@Number 1 2]", test_file("[@Number 1 2]")).expect("parse should succeed");
    let items = &output.program.documents[0].node.items;
    assert_eq!(items.len(), 1, "expected one item");
    match &items[0] {
        SurfaceItem::Expr(node) => {
            match &node.expr {
                SurfaceExpression::Dict(entries) => {
                    assert_eq!(
                        entries.len(),
                        2,
                        "expected 2 entries, got {}",
                        entries.len()
                    );
                }
                SurfaceExpression::TypeAssert { .. } => {
                }
                other => panic!("expected Dict or TypeAssert, got {other:?}"),
            }
        }
        other => panic!("expected Expr item, got {other:?}"),
    }
}

#[test]
fn parser_test_fn_empty() {
    let output = parse("[fn]", test_file("[fn]")).expect("recovery should succeed");
    assert!(
        !output.diagnostics.is_empty(),
        "expected recovered error for empty fn form"
    );
    assert!(
        output.diagnostics[0]
            .message
            .contains("fn form requires a body expression"),
        "expected error about fn requiring a body, got: {}",
        output.diagnostics[0].message
    );
}

#[test]
fn parser_test_keyword_as_dict_key() {
    let output = parse("[call: 1]", test_file("[call: 1]")).expect("parse failed");
    let items = surf_items(&output.program.documents[0].node);
    match &items[0].expr {
        SurfaceExpression::Dict(entries) => {
            assert_eq!(entries.len(), 1);
            let key = entries[0].node.key.as_ref().expect("expected keyed entry");
            match &key.expr {
                SurfaceExpression::StringLiteral { content: s, .. } => assert_eq!(s, "call"),
                other => panic!("expected key 'call', got {other:?}"),
            }
            assert!(matches!(
                &entries[0].node.value.expr,
                SurfaceExpression::Int(1)
            ));
        }
        other => panic!("expected Dict, got {other:?}"),
    }
}

#[test]
fn parser_test_all_keywords_as_dict_keys() {
    let output = parse(
        "[call: 1 fn: 2 type: 3]",
        test_file("[call: 1 fn: 2 type: 3]"),
    )
    .expect("parse failed");
    let items = surf_items(&output.program.documents[0].node);
    match &items[0].expr {
        SurfaceExpression::Dict(entries) => {
            assert_eq!(entries.len(), 3);
            let expected_keys = ["call", "fn", "type"];
            let expected_values = [1i64, 2, 3];
            for (i, (key, val)) in expected_keys.iter().zip(expected_values.iter()).enumerate()
            {
                let entry_key = entries[i].node.key.as_ref().expect("expected keyed entry");
                match &entry_key.expr {
                    SurfaceExpression::StringLiteral { content: s, .. } => {
                        assert_eq!(s.as_str(), *key)
                    }
                    other => panic!("expected key '{key}', got {other:?}"),
                }
                match &entries[i].node.value.expr {
                    SurfaceExpression::Int(n) => assert_eq!(*n, *val),
                    other => panic!("expected Int({val}), got {other:?}"),
                }
            }
        }
        other => panic!("expected Dict, got {other:?}"),
    }
}

#[test]
fn parser_test_whitespace_in_form_classification() {
    let output = parse("[ call $f]", test_file("[ call $f]")).expect("parse failed");
    let items = surf_items(&output.program.documents[0].node);
    match &items[0].expr {
        SurfaceExpression::Call {
            func,
            args,
            named_args,
            ..
        } => {
            match &func.expr {
                SurfaceExpression::VarRef { name, .. } => assert_eq!(name, "f"),
                other => panic!("expected VarRef for func, got {other:?}"),
            }
            assert_eq!(args.len(), 0);
            assert_eq!(named_args.len(), 0);
        }
        other => panic!("expected Call, got {other:?}"),
    }
}

#[test]
fn parser_test_keyed_entry_with_bracket_value() {
    let output = parse("[a: [1]]", test_file("[a: [1]]")).expect("parse failed");
    let items = surf_items(&output.program.documents[0].node);
    match &items[0].expr {
        SurfaceExpression::Dict(entries) => {
            assert_eq!(entries.len(), 1);
            let key = entries[0].node.key.as_ref().expect("expected keyed entry");
            match &key.expr {
                SurfaceExpression::StringLiteral { content: s, .. } => assert_eq!(s, "a"),
                other => panic!("expected key 'a', got {other:?}"),
            }
            match &entries[0].node.value.expr {
                SurfaceExpression::Dict(inner_entries) => {
                    assert_eq!(inner_entries.len(), 1);
                    assert!(matches!(
                        &inner_entries[0].node.value.expr,
                        SurfaceExpression::Int(1)
                    ));
                }
                other => panic!("expected inner Dict, got {other:?}"),
            }
        }
        other => panic!("expected Dict, got {other:?}"),
    }
}

#[test]
fn parser_test_call_named_arg_bracket_value() {
    let output =
        parse("[call $f x: [1]]", test_file("[call $f x: [1]]")).expect("parse failed");
    let items = surf_items(&output.program.documents[0].node);
    match &items[0].expr {
        SurfaceExpression::Call {
            func,
            args,
            named_args,
            ..
        } => {
            match &func.expr {
                SurfaceExpression::VarRef { name, .. } => assert_eq!(name, "f"),
                other => panic!("expected VarRef for func, got {other:?}"),
            }
            assert_eq!(args.len(), 0);
            assert_eq!(named_args.len(), 1);
            assert_eq!(named_args[0].node.name, "x");
            match &named_args[0].node.value.expr {
                SurfaceExpression::Dict(inner_entries) => {
                    assert_eq!(inner_entries.len(), 1);
                    assert!(matches!(
                        &inner_entries[0].node.value.expr,
                        SurfaceExpression::Int(1)
                    ));
                }
                other => panic!("expected inner Dict for named arg value, got {other:?}"),
            }
        }
        other => panic!("expected Call, got {other:?}"),
    }
}

#[test]
fn parser_test_call_only_named_args() {
    let output =
        parse("[call $f x: 1 y: 2]", test_file("[call $f x: 1 y: 2]")).expect("parse failed");
    let items = surf_items(&output.program.documents[0].node);
    match &items[0].expr {
        SurfaceExpression::Call {
            func,
            args,
            named_args,
            ..
        } => {
            match &func.expr {
                SurfaceExpression::VarRef { name, .. } => assert_eq!(name, "f"),
                other => panic!("expected VarRef for func, got {other:?}"),
            }
            assert_eq!(args.len(), 0);
            assert_eq!(named_args.len(), 2);
            assert_eq!(named_args[0].node.name, "x");
            assert!(matches!(
                &named_args[0].node.value.expr,
                SurfaceExpression::Int(1)
            ));
            assert_eq!(named_args[1].node.name, "y");
            assert!(matches!(
                &named_args[1].node.value.expr,
                SurfaceExpression::Int(2)
            ));
        }
        other => panic!("expected Call, got {other:?}"),
    }
}

#[test]
fn parser_test_unmatched_closing_bracket() {
    let err = parse("]", test_file("]")).unwrap_err();
    assert!(
        err.message.contains("unmatched closing bracket"),
        "expected 'unmatched closing bracket' error, got: {}",
        err.message
    );
}

#[test]
fn parser_test_unclosed_bracket() {
    let err = parse("[", test_file("[")).unwrap_err();
    assert!(
        err.message.contains("unclosed bracket"),
        "expected 'unclosed bracket' error, got: {}",
        err.message
    );
}

#[test]
fn parser_test_call_colon_without_key() {
    let output =
        parse("[call $f :]", test_file("[call $f :]")).expect("recovery should succeed");
    assert!(
        !output.diagnostics.is_empty(),
        "expected recovered error for colon without name in call frame"
    );
    assert!(
        output.diagnostics[0].message.contains("without a name"),
        "expected error about colon without a name in call frame, got: {}",
        output.diagnostics[0].message
    );
}

#[test]
fn parser_test_annotation_invalid_token() {
    let output = parse("[@123]", test_file("[@123]")).expect("recovery should succeed");
    assert!(
        !output.diagnostics.is_empty(),
        "expected recovered error for floating annotation with no expression"
    );
    assert!(
        output.diagnostics[0].message.contains("type-assert form")
            || output.diagnostics[0]
                .message
                .contains("requires an expression"),
        "expected error about missing expression after annotation, got: {}",
        output.diagnostics[0].message
    );
}

#[test]
fn parser_test_mixed_keyed_and_auto_indexed() {
    let output = parse("[a: 1 2 b: 3]", test_file("[a: 1 2 b: 3]")).expect("parse failed");
    let items = surf_items(&output.program.documents[0].node);
    match &items[0].expr {
        SurfaceExpression::Dict(entries) => {
            assert_eq!(
                entries.len(),
                3,
                "expected 3 entries, got {}",
                entries.len()
            );
            let key0 = entries[0]
                .node
                .key
                .as_ref()
                .expect("entry 0 should have key");
            match &key0.expr {
                SurfaceExpression::StringLiteral { content: s, .. } => assert_eq!(s, "a"),
                other => panic!("expected key 'a', got {other:?}"),
            }
            assert!(matches!(
                &entries[0].node.value.expr,
                SurfaceExpression::Int(1)
            ));
            assert!(
                entries[1].node.key.is_none(),
                "entry 1 should be auto-indexed (no key)"
            );
            assert!(matches!(
                &entries[1].node.value.expr,
                SurfaceExpression::Int(2)
            ));
            let key2 = entries[2]
                .node
                .key
                .as_ref()
                .expect("entry 2 should have key");
            match &key2.expr {
                SurfaceExpression::StringLiteral { content: s, .. } => assert_eq!(s, "b"),
                other => panic!("expected key 'b', got {other:?}"),
            }
            assert!(matches!(
                &entries[2].node.value.expr,
                SurfaceExpression::Int(3)
            ));
        }
        other => panic!("expected Dict, got {other:?}"),
    }
}

#[test]
fn test_fn_params_simple() {
    let output =
        parse("[fn [let x y] $x]", test_file("[fn [let x y] $x]")).expect("parse failed");
    let items = surf_items(&output.program.documents[0].node);
    match &items[0].expr {
        SurfaceExpression::Fn {
            params,
            body,
            return_ann,
            desugared,
        } => {
            assert_eq!(params.len(), 2);
            assert_eq!(params[0].node.name, "x");
            assert!(params[0].node.annotation.is_none());
            assert!(!params[0].node.variadic);
            assert_eq!(params[1].node.name, "y");
            assert!(params[1].node.annotation.is_none());
            assert!(!params[1].node.variadic);
            assert!(
                matches!(&body.expr, SurfaceExpression::VarRef { name, .. } if name == "x")
            );
            assert!(return_ann.is_none());
            assert!(!desugared);
        }
        other => panic!("expected Fn, got {other:?}"),
    }
}

#[test]
fn test_fn_params_annotated() {
    let output =
        parse("[fn [let x@Int] $x]", test_file("[fn [let x@Int] $x]")).expect("parse failed");
    let items = surf_items(&output.program.documents[0].node);
    match &items[0].expr {
        SurfaceExpression::Fn { params, .. } => {
            assert_eq!(params.len(), 1);
            assert_eq!(params[0].node.name, "x");
            assert!(params[0].node.annotation.is_some());
            assert!(
                matches!(
                    &params[0].node.annotation.as_ref().unwrap().node,
                    Annotation::Simple(s) if s == "Int"
                ),
                "expected Simple(\"Int\") annotation, got {:?}",
                params[0].node.annotation.as_ref().unwrap().node
            );
            assert!(!params[0].node.variadic);
        }
        other => panic!("expected Fn, got {other:?}"),
    }
}

#[test]
fn test_fn_return_annotation() {
    let output = parse(
        "[fn@Number [let x] $x]",
        test_file("[fn@Number [let x] $x]"),
    )
    .expect("parse failed");
    let items = surf_items(&output.program.documents[0].node);
    match &items[0].expr {
        SurfaceExpression::Fn {
            return_ann, params, ..
        } => {
            assert!(return_ann.is_some());
            match &return_ann.as_ref().unwrap().node {
                Annotation::Simple(name) => assert_eq!(name, "Number"),
                other => panic!("expected Simple annotation, got {other:?}"),
            }
            assert_eq!(params.len(), 1);
            assert_eq!(params[0].node.name, "x");
        }
        other => panic!("expected Fn, got {other:?}"),
    }
}

#[test]
fn test_fn_variadic() {
    let output = parse(
        "[fn [let ...args] $args]",
        test_file("[fn [let ...args] $args]"),
    )
    .expect("parse failed");
    let items = surf_items(&output.program.documents[0].node);
    match &items[0].expr {
        SurfaceExpression::Fn { params, .. } => {
            assert_eq!(params.len(), 1);
            assert_eq!(params[0].node.name, "args");
            assert!(params[0].node.variadic);
            assert!(params[0].node.annotation.is_none());
        }
        other => panic!("expected Fn, got {other:?}"),
    }
}

#[test]
fn test_dot_access_simple() {
    let output = parse("$a.b", test_file("$a.b")).expect("parse failed");
    let items = surf_items(&output.program.documents[0].node);
    match &items[0].expr {
        SurfaceExpression::Field { expr, field, .. } => {
            let inner = expr.as_ref().expect("expected Some(target)");
            match &inner.expr {
                SurfaceExpression::VarRef { name, .. } => assert_eq!(name, "a"),
                other => panic!("expected VarRef, got {other:?}"),
            }
            assert_eq!(*field, DotKey::Ident("b".to_string()));
        }
        other => panic!("expected Field, got {other:?}"),
    }
}

#[test]
fn test_dot_access_chain() {
    let output = parse("$a.b.c", test_file("$a.b.c")).expect("parse failed");
    let items = surf_items(&output.program.documents[0].node);
    match &items[0].expr {
        SurfaceExpression::Field {
            expr: outer_expr,
            field: outer_field,
            ..
        } => {
            assert_eq!(*outer_field, DotKey::Ident("c".to_string()));
            let outer_inner = outer_expr
                .as_ref()
                .expect("expected Some(target) for outer");
            match &outer_inner.expr {
                SurfaceExpression::Field {
                    expr: inner_expr,
                    field: inner_field,
                    ..
                } => {
                    assert_eq!(*inner_field, DotKey::Ident("b".to_string()));
                    let inner_inner = inner_expr
                        .as_ref()
                        .expect("expected Some(target) for inner");
                    match &inner_inner.expr {
                        SurfaceExpression::VarRef { name, .. } => assert_eq!(name, "a"),
                        other => panic!("expected VarRef at base, got {other:?}"),
                    }
                }
                other => panic!("expected inner Field, got {other:?}"),
            }
        }
        other => panic!("expected outer Field, got {other:?}"),
    }
}

#[test]
fn test_dot_access_inside_call() {
    let output = parse("[call $fn $a.b]", test_file("[call $fn $a.b]")).expect("parse failed");
    let items = surf_items(&output.program.documents[0].node);
    match &items[0].expr {
        SurfaceExpression::Call {
            func,
            args,
            named_args,
            ..
        } => {
            match &func.expr {
                SurfaceExpression::VarRef { name, .. } => assert_eq!(name, "fn"),
                other => panic!("expected VarRef for func, got {other:?}"),
            }
            assert_eq!(args.len(), 1);
            match &args[0].expr {
                SurfaceExpression::Field { expr, field, .. } => {
                    assert_eq!(*field, DotKey::Ident("b".to_string()));
                    let inner = expr.as_ref().expect("expected Some(target)");
                    match &inner.expr {
                        SurfaceExpression::VarRef { name, .. } => assert_eq!(name, "a"),
                        other => panic!("expected VarRef, got {other:?}"),
                    }
                }
                other => panic!("expected Field, got {other:?}"),
            }
            assert_eq!(named_args.len(), 0);
        }
        other => panic!("expected Call, got {other:?}"),
    }
}

#[test]
fn test_dot_access_inside_dict() {
    let output = parse("[x: $y.z]", test_file("[x: $y.z]")).expect("parse failed");
    let items = surf_items(&output.program.documents[0].node);
    match &items[0].expr {
        SurfaceExpression::Dict(entries) => {
            assert_eq!(entries.len(), 1);
            assert!(entries[0].node.key.is_some());
            match &entries[0].node.key.as_ref().unwrap().expr {
                SurfaceExpression::StringLiteral { content: s, .. } => assert_eq!(s, "x"),
                other => panic!("expected key 'x', got {other:?}"),
            }
            match &entries[0].node.value.expr {
                SurfaceExpression::Field { expr, field, .. } => {
                    assert_eq!(*field, DotKey::Ident("z".to_string()));
                    let inner = expr.as_ref().expect("expected Some(target)");
                    match &inner.expr {
                        SurfaceExpression::VarRef { name, .. } => assert_eq!(name, "y"),
                        other => panic!("expected VarRef, got {other:?}"),
                    }
                }
                other => panic!("expected Field, got {other:?}"),
            }
        }
        other => panic!("expected Dict, got {other:?}"),
    }
}

#[test]
fn test_leading_dot_parent_scope() {
    let output = parse(".x", test_file(".x")).expect("parse failed");
    let items = surf_items(&output.program.documents[0].node);
    match &items[0].expr {
        SurfaceExpression::Field { expr, field, .. } => {
            assert!(expr.is_none(), "expected None target for leading-dot");
            assert_eq!(*field, DotKey::Ident("x".to_string()));
        }
        other => panic!("expected Field, got {other:?}"),
    }
}

#[test]
fn test_leading_dot_inside_dict() {
    let output = parse("[outer-x: .x]", test_file("[outer-x: .x]")).expect("parse failed");
    let items = surf_items(&output.program.documents[0].node);
    match &items[0].expr {
        SurfaceExpression::Dict(entries) => {
            assert_eq!(entries.len(), 1);
            match &entries[0].node.value.expr {
                SurfaceExpression::Field { expr, field, .. } => {
                    assert!(
                        expr.is_none(),
                        "expected None target for leading-dot in dict value"
                    );
                    assert_eq!(*field, DotKey::Ident("x".to_string()));
                }
                other => panic!("expected Field, got {other:?}"),
            }
        }
        other => panic!("expected Dict, got {other:?}"),
    }
}

#[test]
fn test_doc_separator() {
    let output =
        parse("[a: 1]\n---\n[b: 2]", test_file("[a: 1]\n---\n[b: 2]")).expect("parse failed");
    assert_eq!(output.program.documents.len(), 2);

    let items1 = surf_items(&output.program.documents[0].node);
    assert_eq!(items1.len(), 1);
    match &items1[0].expr {
        SurfaceExpression::Dict(entries) => {
            assert_eq!(entries.len(), 1);
            match &entries[0].node.key.as_ref().unwrap().expr {
                SurfaceExpression::StringLiteral { content: s, .. } => assert_eq!(s, "a"),
                other => panic!("expected key 'a', got {other:?}"),
            }
        }
        other => panic!("expected Dict in doc1, got {other:?}"),
    }

    let items2 = surf_items(&output.program.documents[1].node);
    assert_eq!(items2.len(), 1);
    match &items2[0].expr {
        SurfaceExpression::Dict(entries) => {
            assert_eq!(entries.len(), 1);
            match &entries[0].node.key.as_ref().unwrap().expr {
                SurfaceExpression::StringLiteral { content: s, .. } => assert_eq!(s, "b"),
                other => panic!("expected key 'b', got {other:?}"),
            }
        }
        other => panic!("expected Dict in doc2, got {other:?}"),
    }
}

#[test]
fn test_comment_leading() {
    let output =
        parse("# comment\n[a: 1]", test_file("# comment\n[a: 1]")).expect("parse failed");
    assert!(!output.leading_comments.is_empty());
    let has_comment = output
        .leading_comments
        .values()
        .any(|v| v.iter().any(|c| c.contains("comment")));
    assert!(
        has_comment,
        "expected to find 'comment' in leading_comments"
    );
}

#[test]
fn test_fn_param_variadic_not_last() {
    let result = parse(
        "[fn [let ...args x] $x]",
        test_file("[fn [let ...args x] $x]"),
    );
    assert!(
        result.is_ok(),
        "parser should accept variadic in non-last position"
    );
}

#[test]
fn test_fn_multiple_variadic() {
    let result = parse(
        "[fn [let ...args ...rest] $x]",
        test_file("[fn [let ...args ...rest] $x]"),
    );
    assert!(result.is_ok(), "parser should accept multiple variadics");
}

#[test]
fn test_range_outside_bracket_access() {
    let err = parse("1..5", test_file("1..5")).unwrap_err();
    assert!(
        err.message.contains("expected field name") || err.message.contains("found Dot"),
        "expected a dot-access parse error, got: {}",
        err.message
    );
}

#[test]
fn test_doc_separator_inside_bracket() {
    let err = parse("[---]", test_file("[---]")).unwrap_err();
    assert!(
        err.message
            .contains("document separator cannot appear inside"),
        "expected error about doc separator inside bracket, got: {}",
        err.message
    );
}

#[test]
fn test_whitespace_allows_dot_access() {
    let output = parse("$a .b", test_file("$a .b")).expect("parse failed");
    let items = surf_items(&output.program.documents[0].node);
    assert_eq!(
        items.len(),
        1,
        "expected 1 expression (Field), got {}",
        items.len()
    );
    match &items[0].expr {
        SurfaceExpression::Field {
            expr: inner_opt,
            field,
            ..
        } => {
            assert_eq!(*field, DotKey::Ident("b".to_string()));
            let inner = inner_opt.as_ref().expect("expected Some(target)");
            match &inner.expr {
                SurfaceExpression::VarRef { name, .. } => assert_eq!(name, "a"),
                other => panic!("expected VarRef('a') inside Field, got {other:?}"),
            }
        }
        other => panic!("expected Field, got {other:?}"),
    }
}

#[test]
fn test_bracket_parses_as_separate_dict() {
    let output = parse("$a [0]", test_file("$a [0]")).expect("parse failed");
    let items = surf_items(&output.program.documents[0].node);
    assert_eq!(
        items.len(),
        2,
        "expected 2 expressions (VarRef 'a' + Dict containing Int(0)), got {}",
        items.len()
    );
    match &items[0].expr {
        SurfaceExpression::VarRef { name, .. } => assert_eq!(name, "a"),
        other => panic!("expected VarRef('a') as first expr, got {other:?}"),
    }
    match &items[1].expr {
        SurfaceExpression::Dict(entries) => {
            assert_eq!(entries.len(), 1);
            assert!(matches!(
                &entries[0].node.value.expr,
                SurfaceExpression::Int(0)
            ));
        }
        other => panic!("expected Dict([Int(0)]) as second expr, got {other:?}"),
    }
}

#[test]
fn test_fn_params_mixed() {
    let output = parse(
        "[fn [let x y@Int ...rest] $x]",
        test_file("[fn [let x y@Int ...rest] $x]"),
    )
    .expect("parse failed");
    let items = surf_items(&output.program.documents[0].node);
    match &items[0].expr {
        SurfaceExpression::Fn { params, body, .. } => {
            assert_eq!(params.len(), 3);
            assert_eq!(params[0].node.name, "x");
            assert!(params[0].node.annotation.is_none());
            assert!(!params[0].node.variadic);
            assert_eq!(params[1].node.name, "y");
            assert!(params[1].node.annotation.is_some());
            assert!(
                matches!(
                    &params[1].node.annotation.as_ref().unwrap().node,
                    Annotation::Simple(s) if s == "Int"
                ),
                "expected Simple(\"Int\") annotation, got {:?}",
                params[1].node.annotation.as_ref().unwrap().node
            );
            assert!(!params[1].node.variadic);
            assert_eq!(params[2].node.name, "rest");
            assert!(params[2].node.variadic);
            assert!(params[2].node.annotation.is_none());
            assert!(
                matches!(&body.expr, SurfaceExpression::VarRef { name, .. } if name == "x")
            );
        }
        other => panic!("expected Fn, got {other:?}"),
    }
}

#[test]
fn test_fn_both_annotations() {
    let output = parse(
        "[fn@Number [let x@Int] $x]",
        test_file("[fn@Number [let x@Int] $x]"),
    )
    .expect("parse failed");
    let items = surf_items(&output.program.documents[0].node);
    match &items[0].expr {
        SurfaceExpression::Fn {
            params,
            return_ann,
            body,
            ..
        } => {
            assert!(return_ann.is_some());
            match &return_ann.as_ref().unwrap().node {
                Annotation::Simple(name) => assert_eq!(name, "Number"),
                other => panic!("expected Simple(Number) return annotation, got {other:?}"),
            }
            assert_eq!(params.len(), 1);
            assert_eq!(params[0].node.name, "x");
            assert!(params[0].node.annotation.is_some());
            assert!(
                matches!(
                    &params[0].node.annotation.as_ref().unwrap().node,
                    Annotation::Simple(s) if s == "Int"
                ),
                "expected Simple(\"Int\") annotation, got {:?}",
                params[0].node.annotation.as_ref().unwrap().node
            );
            assert!(!params[0].node.variadic);
            assert!(
                matches!(&body.expr, SurfaceExpression::VarRef { name, .. } if name == "x")
            );
        }
        other => panic!("expected Fn, got {other:?}"),
    }
}

#[test]
fn test_dot_access_on_dict_literal() {
    let output = parse("[x: 1].x", test_file("[x: 1].x")).expect("parse failed");
    let items = surf_items(&output.program.documents[0].node);
    assert_eq!(items.len(), 1, "expected 1 expression (Field)");
    match &items[0].expr {
        SurfaceExpression::Field { expr, field, .. } => {
            assert_eq!(*field, DotKey::Ident("x".to_string()));
            let inner = expr.as_ref().expect("expected Some(target)");
            match &inner.expr {
                SurfaceExpression::Dict(entries) => {
                    assert_eq!(entries.len(), 1);
                    match &entries[0].node.key.as_ref().unwrap().expr {
                        SurfaceExpression::StringLiteral { content: s, .. } => {
                            assert_eq!(s, "x")
                        }
                        other => panic!("expected key 'x', got {other:?}"),
                    }
                }
                other => panic!("expected Dict as Field target, got {other:?}"),
            }
        }
        other => panic!("expected Field, got {other:?}"),
    }
}

#[test]
fn test_comment_trailing() {
    let output = parse(
        "[a: 1] # trailing comment",
        test_file("[a: 1] # trailing comment"),
    )
    .expect("parse failed");
    assert!(
        !output.trailing_comments.is_empty(),
        "expected at least one trailing comment"
    );
    let has_comment = output
        .trailing_comments
        .values()
        .any(|c| c.contains("trailing comment"));
    assert!(
        has_comment,
        "expected to find 'trailing comment' in trailing_comments, got: {:?}",
        output.trailing_comments
    );
}

#[test]
fn test_multiple_doc_separators() {
    let output = parse(
        "[a: 1]\n---\n[b: 2]\n---\n[c: 3]",
        test_file("[a: 1]\n---\n[b: 2]\n---\n[c: 3]"),
    )
    .expect("parse failed");
    assert_eq!(
        output.program.documents.len(),
        3,
        "expected 3 documents, got {}",
        output.program.documents.len()
    );

    let items1 = surf_items(&output.program.documents[0].node);
    assert_eq!(items1.len(), 1);
    match &items1[0].expr {
        SurfaceExpression::Dict(entries) => {
            assert_eq!(entries.len(), 1);
            match &entries[0].node.key.as_ref().unwrap().expr {
                SurfaceExpression::StringLiteral { content: s, .. } => assert_eq!(s, "a"),
                other => panic!("expected key 'a' in doc1, got {other:?}"),
            }
        }
        other => panic!("expected Dict in doc1, got {other:?}"),
    }

    let items2 = surf_items(&output.program.documents[1].node);
    assert_eq!(items2.len(), 1);
    match &items2[0].expr {
        SurfaceExpression::Dict(entries) => {
            assert_eq!(entries.len(), 1);
            match &entries[0].node.key.as_ref().unwrap().expr {
                SurfaceExpression::StringLiteral { content: s, .. } => assert_eq!(s, "b"),
                other => panic!("expected key 'b' in doc2, got {other:?}"),
            }
        }
        other => panic!("expected Dict in doc2, got {other:?}"),
    }

    let items3 = surf_items(&output.program.documents[2].node);
    assert_eq!(items3.len(), 1);
    match &items3[0].expr {
        SurfaceExpression::Dict(entries) => {
            assert_eq!(entries.len(), 1);
            match &entries[0].node.key.as_ref().unwrap().expr {
                SurfaceExpression::StringLiteral { content: s, .. } => assert_eq!(s, "c"),
                other => panic!("expected key 'c' in doc3, got {other:?}"),
            }
        }
        other => panic!("expected Dict in doc3, got {other:?}"),
    }
}

#[test]
fn test_fn_empty_params() {
    let output = parse("[fn [let] 42]", test_file("[fn [let] 42]")).expect("parse failed");
    let items = surf_items(&output.program.documents[0].node);
    match &items[0].expr {
        SurfaceExpression::Fn {
            params,
            body,
            return_ann,
            desugared,
        } => {
            assert_eq!(params.len(), 0, "expected empty param list");
            assert!(matches!(&body.expr, SurfaceExpression::Int(42)));
            assert!(return_ann.is_none());
            assert!(!desugared);
        }
        other => panic!("expected Fn, got {other:?}"),
    }
}

#[test]
fn test_fn_param_span() {
    let output =
        parse("[fn [let x@Int] $x]", test_file("[fn [let x@Int] $x]")).expect("parse failed");
    let items = surf_items(&output.program.documents[0].node);
    match &items[0].expr {
        SurfaceExpression::Fn { params, .. } => {
            assert_eq!(params.len(), 1);
            let param_span = params[0].span.clone();
            assert_eq!(
                param_span.start_col, 10,
                "expected param span to start at column 10 ('x'), got {}",
                param_span.start_col
            );
            assert!(
                param_span.end_col > 13,
                "expected param span end col > 13 (includes '@Int'), got {}",
                param_span.end_col
            );
        }
        other => panic!("expected Fn, got {other:?}"),
    }
}

#[test]
fn test_duplicate_key() {
    let output =
        parse("[a: 1  a: 2]", test_file("[a: 1  a: 2]")).expect("recovery should succeed");
    assert!(
        !output.diagnostics.is_empty(),
        "expected recovered error for duplicate key"
    );
    assert!(
        output.diagnostics[0].message.contains("duplicate key"),
        "expected 'duplicate key' in error, got: {}",
        output.diagnostics[0].message
    );
    assert!(
        output.diagnostics[0].message.contains("\"a\""),
        "expected key name in error, got: {}",
        output.diagnostics[0].message
    );
}

#[test]
fn test_empty_document_explicit() {
    let output = parse("---\n[a: 1]", test_file("---\n[a: 1]")).expect("parse failed");
    assert_eq!(output.program.documents.len(), 2);
    assert_eq!(surf_items(&output.program.documents[0].node).len(), 0);
    assert_eq!(surf_items(&output.program.documents[1].node).len(), 1);
}

#[test]
fn test_annotated_bare_word() {
    let expr = parse_surf_node("word@Int");
    match &expr.expr {
        SurfaceExpression::VarRef {
            name,
            annotation: Some(annotation),
            ..
        } => {
            assert_eq!(name.as_str(), "word");
            match &annotation.node {
                Annotation::Simple(s) => assert_eq!(s, "Int"),
                other => panic!("expected Simple(\"Int\") annotation, got {other:?}"),
            }
        }
        other => panic!("expected annotated VarRef, got {other:?}"),
    }
}

#[test]
fn test_comment_collection() {
    let output =
        parse("# my comment\n[a: 1]", test_file("# my comment\n[a: 1]")).expect("parse failed");
    assert!(
        !output.leading_comments.is_empty(),
        "expected leading_comments to be non-empty"
    );
    let has_comment = output
        .leading_comments
        .values()
        .any(|comments| comments.iter().any(|c| c.contains("my comment")));
    assert!(
        has_comment,
        "expected to find 'my comment' in leading_comments, got: {:?}",
        output.leading_comments
    );
}

#[test]
fn test_bracket_form_span_line_column() {
    let input = "# Line 1\n# Line 2\n# Line 3\n[x: 10\n y: 20]";
    let output = parse(input, test_file(input)).expect("parse failed");
    let items = surf_items(&output.program.documents[0].node);
    assert_eq!(items[0].span.start_line, 4, "Dict should start on line 4");
    assert_eq!(items[0].span.start_col, 1, "Dict should start at column 1");

    let input2 = "# Line 1\n[outer: [inner: 1]]";
    let output2 = parse(input2, test_file(input2)).expect("parse failed");
    let items2 = surf_items(&output2.program.documents[0].node);
    match &items2[0].expr {
        SurfaceExpression::Dict(entries) => {
            assert_eq!(entries.len(), 1);
            assert_eq!(
                items2[0].span.start_line, 2,
                "Outer dict should start on line 2"
            );
            match &entries[0].node.value.expr {
                SurfaceExpression::Dict(_) => {
                    let inner_span = entries[0].node.value.span.clone();
                    assert_eq!(
                        inner_span.start_line, 2,
                        "Inner dict should start on line 2"
                    );
                    assert_eq!(
                        inner_span.start_col, 9,
                        "Inner dict should start at column 9 (after 'outer: ')"
                    );
                }
                other => panic!("expected inner Dict, got {other:?}"),
            }
        }
        other => panic!("expected outer Dict, got {other:?}"),
    }
}

#[test]
fn test_bracket_form_span_variants() {
    let input_call = "# Line 1\n# Line 2\n[call $f 1]";
    let output = parse(input_call, test_file(input_call)).expect("parse failed");
    let items = surf_items(&output.program.documents[0].node);
    match &items[0].expr {
        SurfaceExpression::Call { .. } => {
            assert_eq!(items[0].span.start_line, 3, "Call should start on line 3");
        }
        other => panic!("expected Call, got {other:?}"),
    }

    let input_fn = "# Line 1\n# Line 2\n[fn [let x] $x]";
    let output = parse(input_fn, test_file(input_fn)).expect("parse failed");
    let items = surf_items(&output.program.documents[0].node);
    match &items[0].expr {
        SurfaceExpression::Fn { .. } => {
            assert_eq!(items[0].span.start_line, 3, "Fn should start on line 3");
        }
        other => panic!("expected Fn, got {other:?}"),
    }

    let input_type = "# Line 1\n# Line 2\n[type Int]";
    let output = parse(input_type, test_file(input_type)).expect("parse failed");
    let items = &output.program.documents[0].node.items;
    assert_eq!(items.len(), 1, "expected one item");
    match &items[0] {
        SurfaceItem::Decl(decl) => match &decl.node {
            SurfaceDeclaration::TypeAlias { .. } => {
                assert_eq!(decl.span.start_line, 3, "TypeAlias should start on line 3");
            }
            other => panic!("expected TypeAlias declaration, got {other:?}"),
        },
        other => panic!("expected Decl item, got {other:?}"),
    }

    let input_assert = "# Line 1\n# Line 2\n[@Int 42]";
    let output = parse(input_assert, test_file(input_assert)).expect("parse failed");
    let items = surf_items(&output.program.documents[0].node);
    match &items[0].expr {
        SurfaceExpression::TypeAssert { .. } => {
            assert_eq!(
                items[0].span.start_line, 3,
                "TypeAssert should start on line 3"
            );
        }
        other => panic!("expected TypeAssert, got {other:?}"),
    }
}

#[test]
fn test_call_newline_colon_not_dict() {
    let output =
        parse("[call\n: x]", test_file("[call\n: x]")).expect("recovery should succeed");
    assert!(
        !output.diagnostics.is_empty(),
        "expected recovered error for colon without name in call form"
    );
    assert!(
        output.diagnostics[0].message.contains("`:` without a name"),
        "expected error about colon without name, got: {}",
        output.diagnostics[0].message
    );
}

#[test]
fn test_recovery_single_error_inside_brackets() {
    let src = "[a:]";
    let output = parse(src, test_file(src)).expect("recovery should succeed");
    assert_eq!(
        output.diagnostics.len(),
        1,
        "expected exactly 1 recovered error"
    );
    assert!(
        output.diagnostics[0].message.contains("key without value"),
        "expected 'key without value' error, got: {}",
        output.diagnostics[0].message
    );
    let items = surf_items(&output.program.documents[0].node);
    assert_eq!(items.len(), 1, "expected 1 expression (Error node)");
    assert!(
        matches!(items[0].expr, SurfaceExpression::Error(_)),
        "expected SurfaceExpression::Error node after recovery, got: {:?}",
        items[0].expr
    );
}

#[test]
fn test_recovery_multiple_errors() {
    let output = parse("[a:] [b:]", test_file("[a:] [b:]")).expect("recovery should succeed");
    assert_eq!(
        output.diagnostics.len(),
        2,
        "expected 2 recovered errors, got {:?}",
        output
            .diagnostics
            .iter()
            .map(|e| &e.message)
            .collect::<Vec<_>>()
    );
    let items = surf_items(&output.program.documents[0].node);
    assert_eq!(
        items.len(),
        2,
        "expected 2 expressions (2 Error nodes), got {}",
        items.len()
    );
    assert!(
        matches!(items[0].expr, SurfaceExpression::Error(_)),
        "expected first expression to be SurfaceExpression::Error"
    );
    assert!(
        matches!(items[1].expr, SurfaceExpression::Error(_)),
        "expected second expression to be SurfaceExpression::Error"
    );
}

#[test]
fn test_recovery_error_in_nested_brackets() {
    let output = parse("[outer: [inner:]]", test_file("[outer: [inner:]]"))
        .expect("recovery should succeed");
    assert_eq!(output.diagnostics.len(), 1, "expected 1 recovered error");
    assert!(
        output.diagnostics[0].message.contains("key without value"),
        "expected 'key without value' error, got: {}",
        output.diagnostics[0].message
    );
    let items = surf_items(&output.program.documents[0].node);
    assert_eq!(items.len(), 1, "expected 1 top-level expression");
    match &items[0].expr {
        SurfaceExpression::Dict(entries) => {
            assert_eq!(entries.len(), 1, "expected 1 outer entry");
            match &entries[0].node.key.as_ref().unwrap().expr {
                SurfaceExpression::StringLiteral { content: s, .. } => assert_eq!(s, "outer"),
                other => panic!("expected key 'outer', got {other:?}"),
            }
            assert!(
                matches!(entries[0].node.value.expr, SurfaceExpression::Error(_)),
                "expected SurfaceExpression::Error as outer value, got: {:?}",
                entries[0].node.value.expr
            );
        }
        other => panic!("expected outer Dict, got {other:?}"),
    }
}

#[test]
fn test_parse_with_recovery_valid_input() {
    let output = parse_with_recovery("[a: 1 b: 2]");
    assert!(
        output.diagnostics.is_empty(),
        "expected no errors for valid input, got: {:?}",
        output.diagnostics
    );
    let items = surf_items(&output.program.documents[0].node);
    assert_eq!(items.len(), 1);
    assert!(matches!(items[0].expr, SurfaceExpression::Dict(_)));
}

#[test]
fn test_parse_with_recovery_error_input() {
    let output = parse_with_recovery("[fn]");
    assert_eq!(output.diagnostics.len(), 1, "expected 1 recovered error");
    assert!(
        output.diagnostics[0]
            .message
            .contains("fn form requires a body"),
        "expected fn-body error, got: {}",
        output.diagnostics[0].message
    );
}

#[test]
fn test_parse_with_recovery_fatal_error() {
    let output = parse_with_recovery("[");
    assert_eq!(output.diagnostics.len(), 1, "expected 1 fatal error");
    assert!(
        output.diagnostics[0].message.contains("unclosed bracket"),
        "expected unclosed-bracket error, got: {}",
        output.diagnostics[0].message
    );
    assert_eq!(
        output.program.documents.len(),
        0,
        "expected empty documents for fatal error"
    );
}

#[test]
fn test_recovery_partial_dict_preservation() {
    let output =
        parse("[a: 1  a: 2]", test_file("[a: 1  a: 2]")).expect("recovery should succeed");
    assert_eq!(
        output.diagnostics.len(),
        1,
        "expected exactly 1 recovered error"
    );
    assert!(
        output.diagnostics[0].message.contains("duplicate key"),
        "expected 'duplicate key' error, got: {}",
        output.diagnostics[0].message
    );

    let items = surf_items(&output.program.documents[0].node);
    assert_eq!(items.len(), 1, "expected 1 expression");

    match &items[0].expr {
        SurfaceExpression::Dict(entries) => {
            assert_eq!(entries.len(), 2, "expected 2 entries (1 valid + 1 error)");

            match &entries[0].node.key.as_ref().unwrap().expr {
                SurfaceExpression::StringLiteral { content: s, .. } => {
                    assert_eq!(s, "a", "expected key 'a'")
                }
                other => panic!("expected key 'a', got {other:?}"),
            }
            match &entries[0].node.value.expr {
                SurfaceExpression::Int(n) => assert_eq!(*n, 1, "expected value 1"),
                other => panic!("expected value 1, got {other:?}"),
            }

            assert!(
                entries[1].node.key.is_none(),
                "expected error entry to have no key"
            );
            assert!(
                matches!(entries[1].node.value.expr, SurfaceExpression::Error(_)),
                "expected SurfaceExpression::Error as second entry value"
            );
        }
        other => panic!("expected Dict, got {other:?}"),
    }
}

#[test]
fn test_recovery_annotation_invalid_token() {
    let output = parse_with_recovery("[@123 x: 1]");
    assert_eq!(output.program.documents.len(), 1, "expected 1 document");
    let items = surf_items(&output.program.documents[0].node);
    assert!(!items.is_empty(), "expected at least 1 expression");
    match &items[0].expr {
        SurfaceExpression::Dict(entries) => {
            assert_eq!(entries.len(), 1, "expected 1 entry");
        }
        SurfaceExpression::Error(_) => {
        }
        other => panic!("expected Dict or Error, got {other:?}"),
    }
}

#[test]
fn test_skip_to_closing_bracket() {
    let src = "[a [b c] d]";
    let tokens = tokenize(src, test_file(src)).expect("tokenize failed");
    let close = skip_to_closing_bracket(&tokens, 1);
    assert!(
        close < tokens.len(),
        "expected to find closing bracket, got tokens.len()"
    );
    assert!(
        matches!(tokens[close].node, Token::CloseBracket),
        "expected CloseBracket at close index, got {:?}",
        tokens[close].node
    );
    assert_eq!(
        close,
        tokens.len() - 1,
        "expected close to be the last token"
    );
}

#[test]
fn test_underscore_exclusion_positions() {

    let expr = parse_surf_node("[$_: 42]");
    match &expr.expr {
        SurfaceExpression::Dict(entries) => {
            assert_eq!(entries.len(), 1);
            let key_expr = entries[0].node.key.as_ref().expect("expected key");
            match &key_expr.expr {
                SurfaceExpression::VarRef { name, .. } => {
                    assert_eq!(name, "_", "$_ as dict key should be VarRef")
                }
                other => panic!("expected VarRef(_) for dict key, got {other:?}"),
            }
        }
        other => panic!("expected Dict, got {other:?}"),
    }
}

#[test]
fn test_desugar_interpolated_string_varref() {
    let expr = parse_surf_node(r#"i"Hello $name""#);
    assert!(
        matches!(&expr.expr, SurfaceExpression::StringLiteral { prefix, delimiter, content }
            if prefix == "i" && delimiter == "\"" && content == "Hello $name"),
        "expected StringLiteral with raw i-string content, got {:?}",
        expr.expr
    );
}

#[test]
fn test_desugar_interpolated_string_expr() {
    let expr = parse_surf_node(r#"i"${[+ $x 1]}""#);
    assert!(
        matches!(&expr.expr, SurfaceExpression::StringLiteral { prefix, delimiter, content }
            if prefix == "i" && delimiter == "\"" && content == "${[+ $x 1]}"),
        "expected StringLiteral with raw i-string content, got {:?}",
        expr.expr
    );
}

#[test]
fn test_desugar_interpolated_string_mixed() {
    let expr = parse_surf_node(r#"i"prefix $name suffix ${[+ $x 1]} end""#);
    assert!(
        matches!(&expr.expr, SurfaceExpression::StringLiteral { prefix, delimiter, content }
            if prefix == "i" && delimiter == "\"" && content == "prefix $name suffix ${[+ $x 1]} end"),
        "expected StringLiteral with raw i-string content, got {:?}",
        expr.expr
    );
}

#[test]
fn test_desugar_interpolated_string_expr_unclosed() {
    let expr = parse_surf_node(r#"i"foo ${bar""#);
    assert!(
        matches!(&expr.expr, SurfaceExpression::StringLiteral { prefix, delimiter, content }
            if prefix == "i" && delimiter == "\"" && content == "foo ${bar"),
        "expected StringLiteral with raw content, got {:?}",
        expr.expr
    );
}

#[test]
fn test_pipe_basic() {
    let expr = parse_surf_node("a | b");
    match &expr.expr {
        SurfaceExpression::Pipe { lhs, rhs, .. } => {
            assert!(
                matches!(&lhs.expr, SurfaceExpression::VarRef { name, .. } if name == "a"),
                "expected lhs = VarRef(a), got {:?}",
                lhs.expr
            );
            assert!(
                matches!(&rhs.expr, SurfaceExpression::VarRef { name, .. } if name == "b"),
                "expected rhs = VarRef(b), got {:?}",
                rhs.expr
            );
        }
        other => panic!("expected Pipe, got {other:?}"),
    }
}

#[test]
fn test_pipe_left_assoc() {
    let expr = parse_surf_node("a | b | c");
    match &expr.expr {
        SurfaceExpression::Pipe { lhs, rhs, .. } => {
            assert!(
                matches!(&rhs.expr, SurfaceExpression::VarRef { name, .. } if name == "c"),
                "expected rhs = VarRef(c), got {:?}",
                rhs.expr
            );
            match &lhs.expr {
                SurfaceExpression::Pipe {
                    lhs: inner_lhs,
                    rhs: inner_rhs,
                    ..
                } => {
                    assert!(
                        matches!(&inner_lhs.expr, SurfaceExpression::VarRef { name, .. } if name == "a"),
                        "expected inner_lhs = VarRef(a), got {:?}",
                        inner_lhs.expr
                    );
                    assert!(
                        matches!(&inner_rhs.expr, SurfaceExpression::VarRef { name, .. } if name == "b"),
                        "expected inner_rhs = VarRef(b), got {:?}",
                        inner_rhs.expr
                    );
                }
                other => panic!("expected nested Pipe for lhs, got {other:?}"),
            }
        }
        other => panic!("expected Pipe, got {other:?}"),
    }
}

#[test]
fn test_pipe_inside_brackets() {
    let expr = parse_surf_node("$x | [f $y]");
    match &expr.expr {
        SurfaceExpression::Pipe { lhs, rhs, .. } => {
            assert!(
                matches!(&lhs.expr, SurfaceExpression::VarRef { name, .. } if name == "x"),
                "expected lhs = VarRef(x), got {:?}",
                lhs.expr
            );
            assert!(
                matches!(&rhs.expr, SurfaceExpression::Call { .. }),
                "expected rhs = Call, got {:?}",
                rhs.expr
            );
        }
        other => panic!("expected Pipe, got {other:?}"),
    }
}

#[test]
fn test_pipe_dot_then_pipe() {
    let expr = parse_surf_node("$data.name | upper");
    match &expr.expr {
        SurfaceExpression::Pipe { lhs, rhs, .. } => {
            assert!(
                matches!(&lhs.expr, SurfaceExpression::Field { .. }),
                "expected lhs = Field, got {:?}",
                lhs.expr
            );
            assert!(
                matches!(&rhs.expr, SurfaceExpression::VarRef { name, .. } if name == "upper"),
                "expected rhs = VarRef(upper), got {:?}",
                rhs.expr
            );
        }
        other => panic!("expected Pipe, got {other:?}"),
    }
}

#[test]
fn test_dot_access_int_key() {
    let expr = parse_surf_node("$a.0");
    match &expr.expr {
        SurfaceExpression::Field { field, .. } => {
            assert!(
                matches!(field, DotKey::Int(0)),
                "expected DotKey::Int(0), got {:?}",
                field
            );
        }
        other => panic!("expected Field, got {other:?}"),
    }
}

#[test]
fn test_dot_access_int_then_ident() {
    let expr = parse_surf_node("$a.0.name");
    match &expr.expr {
        SurfaceExpression::Field {
            expr: target,
            field,
            ..
        } => {
            assert!(
                matches!(field, DotKey::Ident(s) if s == "name"),
                "expected outer DotKey::Ident(name), got {:?}",
                field
            );
            match &target
                .as_ref()
                .expect("inner Field should have Some(target)")
                .expr
            {
                SurfaceExpression::Field {
                    field: inner_field, ..
                } => {
                    assert!(
                        matches!(inner_field, DotKey::Int(0)),
                        "expected inner DotKey::Int(0), got {:?}",
                        inner_field
                    );
                }
                other => panic!("expected inner Field, got {other:?}"),
            }
        }
        other => panic!("expected Field, got {other:?}"),
    }
}

#[test]
fn test_percent_cwd_as_varref() {
    let expr = parse_surf_node("%cwd");
    match &expr.expr {
        SurfaceExpression::VarRef { name, .. } => assert_eq!(name, "%cwd"),
        other => panic!("expected VarRef(\"%cwd\"), got {other:?}"),
    }
}

#[test]
fn test_percent_nc_as_varref() {
    let expr = parse_surf_node("%nc");
    match &expr.expr {
        SurfaceExpression::VarRef { name, .. } => assert_eq!(name, "%nc"),
        other => panic!("expected VarRef(\"%nc\"), got {other:?}"),
    }
}

#[test]
fn test_percent_bare_as_varref() {
    let expr = parse_surf_node("%");
    match &expr.expr {
        SurfaceExpression::VarRef { name, .. } => assert_eq!(name, "%"),
        other => panic!("expected VarRef(\"%\"), got {other:?}"),
    }
}

#[test]
fn test_percent_cwd_dot_access() {
    let expr = parse_surf_node("%cwd.field");
    match &expr.expr {
        SurfaceExpression::Field {
            expr: inner_opt,
            field,
            ..
        } => {
            assert_eq!(*field, DotKey::Ident("field".to_string()));
            let inner = inner_opt.as_ref().expect("expected Some(target)");
            match &inner.expr {
                SurfaceExpression::VarRef { name, .. } => assert_eq!(name, "%cwd"),
                other => panic!("expected VarRef(\"%cwd\") inside Field, got {other:?}"),
            }
        }
        other => panic!("expected Field, got {other:?}"),
    }
}

#[test]
fn test_percent_cwd_as_call_arg() {
    let expr = parse_surf_node("[open %cwd \"Cargo.toml\" \"r\"]");
    match &expr.expr {
        SurfaceExpression::Call { func, args, .. } => {
            match &func.expr {
                SurfaceExpression::VarRef { name, .. } => assert_eq!(name, "open"),
                other => panic!("expected VarRef(\"open\") as func, got {other:?}"),
            }
            assert_eq!(args.len(), 3);
            match &args[0].expr {
                SurfaceExpression::VarRef { name, .. } => assert_eq!(name, "%cwd"),
                other => panic!("expected VarRef(\"%cwd\") as first arg, got {other:?}"),
            }
        }
        other => panic!("expected Call, got {other:?}"),
    }
}

#[test]
fn test_dot_access_int_chain() {
    let expr = parse_surf_node("$a.0.1");
    match &expr.expr {
        SurfaceExpression::Field {
            expr: target,
            field,
            ..
        } => {
            assert!(
                matches!(field, DotKey::Int(1)),
                "expected outer DotKey::Int(1), got {:?}",
                field
            );
            match &target
                .as_ref()
                .expect("inner Field should have Some(target)")
                .expr
            {
                SurfaceExpression::Field {
                    field: inner_field, ..
                } => {
                    assert!(
                        matches!(inner_field, DotKey::Int(0)),
                        "expected inner DotKey::Int(0), got {:?}",
                        inner_field
                    );
                }
                other => panic!("expected inner Field, got {other:?}"),
            }
        }
        other => panic!("expected Field, got {other:?}"),
    }
}

#[test]
fn test_format_parse_error() {
    let source = "[a: 1";
    let err = parse(source, test_file(source)).unwrap_err();

    let formatted = format_parse_error(&err, source, "test.llt");

    assert!(formatted.starts_with("error:"));
    assert!(formatted.contains("test.llt"));
    assert!(formatted.contains("-->"));
    assert!(formatted.contains("[a: 1"));
    assert!(
        formatted.contains("= help:"),
        "unclosed bracket error should include a help line, got:\n{formatted}"
    );
    assert!(
        formatted.contains("add a closing ]"),
        "help line should mention adding a closing bracket, got:\n{formatted}"
    );
}

#[test]
fn test_format_parse_error_fn_params_help() {
    let source = "[fn [x y] x]";
    let output = parse(source, test_file(source)).expect("parse should produce output");
    assert!(
        !output.diagnostics.is_empty(),
        "expected a parse diagnostic for [fn [x y] body]"
    );
    let diag = &output.diagnostics[0];
    let formatted = format_parse_error(diag, source, "test.llt");
    assert!(
        formatted.contains("= help:"),
        "fn param error should include a help line, got:\n{formatted}"
    );
    assert!(
        formatted.contains("[fn [let x y] body]"),
        "help should show the correct form, got:\n{formatted}"
    );
}

#[test]
fn test_format_parse_error_no_span() {
    let err =
        TypeDiagnostic::with_spans(DiagnosticLevel::Error, "parse-error", "test error", vec![]);

    let formatted = format_parse_error(&err, "dummy source", "test.llt");

    assert_eq!(formatted, "error: test error");
    assert!(!formatted.contains("-->"));
}

#[test]
fn test_fn_params_letdecl_simple() {
    let output = parse(
        "[fn [let x y] [+ $x $y]]",
        test_file("[fn [let x y] [+ $x $y]]"),
    )
    .expect("parse failed");
    let items = surf_items(&output.program.documents[0].node);
    match &items[0].expr {
        SurfaceExpression::Fn {
            params,
            body,
            return_ann,
            desugared,
        } => {
            assert_eq!(params.len(), 2);
            assert_eq!(params[0].node.name, "x");
            assert!(params[0].node.annotation.is_none());
            assert!(!params[0].node.variadic);
            assert_eq!(params[1].node.name, "y");
            assert!(params[1].node.annotation.is_none());
            assert!(!params[1].node.variadic);
            assert!(matches!(&body.expr, SurfaceExpression::Call { .. }));
            assert!(return_ann.is_none());
            assert!(!desugared);
        }
        other => panic!("expected Fn, got {other:?}"),
    }
}

#[test]
fn test_fn_params_letdecl_annotated() {
    let output = parse(
        "[fn [let x@Int y] [+ $x $y]]",
        test_file("[fn [let x@Int y] [+ $x $y]]"),
    )
    .expect("parse failed");
    let items = surf_items(&output.program.documents[0].node);
    match &items[0].expr {
        SurfaceExpression::Fn { params, .. } => {
            assert_eq!(params.len(), 2);
            assert_eq!(params[0].node.name, "x");
            assert!(params[0].node.annotation.is_some());
            assert!(
                matches!(
                    &params[0].node.annotation.as_ref().unwrap().node,
                    Annotation::Simple(s) if s == "Int"
                ),
                "expected Simple(\"Int\") annotation, got {:?}",
                params[0].node.annotation.as_ref().unwrap().node
            );
            assert!(!params[0].node.variadic);
            assert_eq!(params[1].node.name, "y");
            assert!(params[1].node.annotation.is_none());
            assert!(!params[1].node.variadic);
        }
        other => panic!("expected Fn, got {other:?}"),
    }
}

#[test]
fn test_fn_params_letdecl_mixed() {
    let output = parse(
        "[fn [let x@Int y@String z] $x]",
        test_file("[fn [let x@Int y@String z] $x]"),
    )
    .expect("parse failed");
    let items = surf_items(&output.program.documents[0].node);
    match &items[0].expr {
        SurfaceExpression::Fn { params, .. } => {
            assert_eq!(params.len(), 3);
            assert_eq!(params[0].node.name, "x");
            assert!(params[0].node.annotation.is_some());
            assert_eq!(params[1].node.name, "y");
            assert!(params[1].node.annotation.is_some());
            assert_eq!(params[2].node.name, "z");
            assert!(params[2].node.annotation.is_none());
        }
        other => panic!("expected Fn, got {other:?}"),
    }
}

#[test]
fn test_fn_params_letdecl_with_placeholder() {
    let output =
        parse("[fn [let x ...y] $x]", test_file("[fn [let x ...y] $x]")).expect("parse failed");
    let items = surf_items(&output.program.documents[0].node);
    match &items[0].expr {
        SurfaceExpression::Fn { params, .. } => {
            assert_eq!(params.len(), 2);
            assert_eq!(params[0].node.name, "x");
            assert!(!params[0].node.variadic);
            assert_eq!(params[1].node.name, "y");
            assert!(params[1].node.variadic);
        }
        other => panic!("expected Fn, got {other:?}"),
    }
}

#[test]
fn test_fn_letdecl_params_eval_typed() {
    let output = parse(
        "[fn [let x@Int y] [+ $x $y]]",
        test_file("[fn [let x@Int y] [+ $x $y]]"),
    )
    .expect("parse failed");
    let items = surf_items(&output.program.documents[0].node);
    match &items[0].expr {
        SurfaceExpression::Fn { params, .. } => {
            assert_eq!(params.len(), 2, "expected 2 params");
            assert_eq!(params[0].node.name, "x");
            assert!(
                params[0].node.annotation.is_some(),
                "x should have @Int annotation"
            );
            assert!(
                matches!(
                    &params[0].node.annotation.as_ref().unwrap().node,
                    Annotation::Simple(s) if s == "Int"
                ),
                "expected Simple(\"Int\") annotation, got {:?}",
                params[0].node.annotation.as_ref().unwrap().node
            );
            assert_eq!(params[1].node.name, "y");
            assert!(
                params[1].node.annotation.is_none(),
                "y should be unannotated"
            );
        }
        other => panic!("expected Fn, got {other:?}"),
    }
}

#[test]
fn test_parse_output_as_surface_program() {
    let output = parse("[a: 1  b: 2]", test_file("[a: 1  b: 2]")).expect("parse failed");
    let surface = output.as_surface_program();

    assert_eq!(surface.documents.len(), 1);

    let doc = &surface.documents[0].node;
    assert_eq!(doc.items.len(), 1);

    match &doc.items[0] {
        SurfaceItem::Expr(node) => {
            assert!(matches!(
                &node.expr,
                SurfaceExpression::Dict(entries) if entries.len() == 2
            ));
        }
        _ => panic!("expected Expr item"),
    }
}

#[test]
fn test_let_nested_let_inner_is_proper_letdecl() {
    let output = parse("[let [let x y]]", test_file("[let [let x y]]")).expect("parse failed");
    assert!(
        output.diagnostics.is_empty(),
        "expected no parse errors for [let [let x y]], got: {:?}",
        output.diagnostics
    );
    let items = surf_items(&output.program.documents[0].node);
    assert_eq!(items.len(), 1, "expected one top-level expression");

    match &items[0].expr {
        SurfaceExpression::LetDecl { bindings } => {
            assert_eq!(
                bindings.len(),
                1,
                "outer LetDecl should have exactly 1 binding (the inner [let x y]), got {:?}",
                bindings.iter().map(|b| &b.expr).collect::<Vec<_>>()
            );
            match &bindings[0].expr {
                SurfaceExpression::LetDecl {
                    bindings: inner_bindings,
                } => {
                    assert_eq!(
                        inner_bindings.len(),
                        2,
                        "inner LetDecl should have 2 bindings (x, y), got {:?}",
                        inner_bindings.iter().map(|b| &b.expr).collect::<Vec<_>>()
                    );
                    match &inner_bindings[0].expr {
                        SurfaceExpression::VarRef { name, .. } => assert_eq!(name, "x"),
                        other => panic!("expected VarRef('x'), got {other:?}"),
                    }
                    match &inner_bindings[1].expr {
                        SurfaceExpression::VarRef { name, .. } => assert_eq!(name, "y"),
                        other => panic!("expected VarRef('y'), got {other:?}"),
                    }
                }
                other => panic!(
                    "expected inner LetDecl as sole binding of outer LetDecl; \
                     before the Token::Let fix this would be VarRef(\"let\") followed by x,y. \
                     Got: {other:?}"
                ),
            }
        }
        other => panic!("expected outer LetDecl, got {other:?}"),
    }
}

#[test]
fn test_type_assert_in_match_arm_pattern() {
    let src_type_assert =
        "[x: [fn [let b] [match b Boolean.False: 0 [@Integer ...]: b ...: 1]] x]";
    let output =
        parse(src_type_assert, test_file(src_type_assert)).expect("parse should succeed");
    assert!(
        output.diagnostics.is_empty(),
        "expected no parse errors, got: {:?}",
        output.diagnostics
    );
    let items = surf_items(&output.program.documents[0].node);
    assert_eq!(items.len(), 1, "expected 1 top-level expression (Dict)");
    match &items[0].expr {
        SurfaceExpression::Dict(entries) => {
            assert_eq!(entries.len(), 2, "expected 2 entries: x: <fn> and x");
            let key0 = entries[0]
                .node
                .key
                .as_ref()
                .expect("entry 0 should have key");
            match &key0.expr {
                SurfaceExpression::StringLiteral { content: s, .. } => assert_eq!(s, "x"),
                other => panic!("expected key 'x', got {other:?}"),
            }
            assert!(
                matches!(&entries[0].node.value.expr, SurfaceExpression::Fn { .. }),
                "expected Fn as value of 'x', got {:?}",
                entries[0].node.value.expr
            );
        }
        other => panic!("expected Dict, got {other:?}"),
    }
}

#[test]
fn test_type_assert_match_arm_followed_by_keyed_entry() {
    let src_arm_keyed = "[bool->int: [fn [let b] [match b Boolean.False: 0 [@Integer ...]: b ...: 1]] typecheck-docs: 42]";
    let output = parse(src_arm_keyed, test_file(src_arm_keyed)).expect("parse should succeed");
    assert!(
        output.diagnostics.is_empty(),
        "expected no parse errors for match-with-type-assert followed by keyed entry, got: {:?}",
        output.diagnostics
    );
    let items = surf_items(&output.program.documents[0].node);
    assert_eq!(items.len(), 1);
    match &items[0].expr {
        SurfaceExpression::Dict(entries) => {
            assert_eq!(
                entries.len(),
                2,
                "expected 2 entries: bool->int and typecheck-docs"
            );
            let key1 = entries[1]
                .node
                .key
                .as_ref()
                .expect("entry 1 should have key");
            match &key1.expr {
                SurfaceExpression::StringLiteral { content: s, .. } => {
                    assert_eq!(s, "typecheck-docs")
                }
                other => panic!("expected key 'typecheck-docs', got {other:?}"),
            }
        }
        other => panic!("expected Dict, got {other:?}"),
    }
}

#[test]
fn test_annotated_key_property_dict() {
    let src_annotated_key = r#"[lines@[doc: "Read all lines."]: [fn [let h] h]  other: 42]"#;
    let output =
        parse(src_annotated_key, test_file(src_annotated_key)).expect("parse should succeed");
    assert!(
        output.diagnostics.is_empty(),
        "expected no errors for key@[annotation]: val, got: {:?}",
        output.diagnostics
    );
    let items = surf_items(&output.program.documents[0].node);
    match &items[0].expr {
        SurfaceExpression::Dict(entries) => {
            assert_eq!(entries.len(), 2, "expected 2 entries");
            let key0 = entries[0]
                .node
                .key
                .as_ref()
                .expect("entry 0 should have key");
            assert!(
                matches!(&key0.expr, SurfaceExpression::VarRef { name, annotation: Some(_), .. } if name == "lines"),
                "expected annotated VarRef key 'lines', got {:?}",
                key0.expr
            );
        }
        other => panic!("expected Dict, got {other:?}"),
    }
}

#[test]
fn test_fn_multiline_annotation_does_not_lose_frame() {
    let src = "[whenM: [fn@[return: Unknown  doc: \"\"\"\nMultiline doc.\n\"\"\"] [let app cond action]\n  [if cond action [app.pure []]]]  other: 42]";
    let output = parse_with_recovery(src);
    assert!(
        output.diagnostics.is_empty(),
        "fn@[multiline-annotation] lost its frame: {:?}",
        output.diagnostics
    );
}

#[test]
fn test_fn_annotation_with_nested_type_param() {
    let src = "[f@[doc: \"x\"]: [fn@[bind: [a]  return: a] [let p d xs] xs]  other: 42]";
    let output = parse_with_recovery(src);
    assert!(
        output.diagnostics.is_empty(),
        "fn@[bind: [a] return: a] lost its frame: {:?}",
        output.diagnostics
    );
}

#[test]
fn test_annotated_key_multiline_doc() {
    let src = "[range@[return: Integer  doc: \"\"\"\nMultiline doc.\n\"\"\"]: [fn [let x] x]  other: 42]";
    let output = parse(src, test_file(src)).expect("parse should succeed");
    assert!(
        output.diagnostics.is_empty(),
        "expected no errors for key@[multiline-annotation]: val, got: {:?}",
        output.diagnostics
    );
    let items = surf_items(&output.program.documents[0].node);
    match &items[0].expr {
        SurfaceExpression::Dict(entries) => {
            assert_eq!(entries.len(), 2, "expected 2 entries");
            let key0 = entries[0]
                .node
                .key
                .as_ref()
                .expect("entry 0 should have key");
            assert!(
                matches!(&key0.expr, SurfaceExpression::VarRef { name, annotation: Some(_), .. } if name == "range"),
                "expected annotated VarRef key 'range', got {:?}",
                key0.expr
            );
        }
        other => panic!("expected Dict, got {other:?}"),
    }
}

#[test]
fn test_expression_to_annotation_expr_produces_quote() {
    let node = Arc::new(SurfaceNode::new(
        SurfaceExpression::VarRef {
            name: "Expr".to_string(),
            escaped: false,
            annotation: None,
        },
        Span::new(1, 1, 1, 1, Arc::new("test.llt".to_string())),
    ));
    let ann = expression_to_annotation(&node);
    assert!(
        matches!(ann, Annotation::Quote),
        "expected Annotation::Quote for @Expr, got {ann:?}"
    );
}

#[test]
fn test_expression_to_annotation_non_expr_produces_simple() {
    let node = Arc::new(SurfaceNode::new(
        SurfaceExpression::VarRef {
            name: "Integer".to_string(),
            escaped: false,
            annotation: None,
        },
        Span::new(1, 1, 1, 1, Arc::new("test.llt".to_string())),
    ));
    let ann = expression_to_annotation(&node);
    assert!(
        matches!(ann, Annotation::Simple(ref s) if s == "Integer"),
        "expected Annotation::Simple(\"Integer\") for @Integer, got {ann:?}"
    );
}
