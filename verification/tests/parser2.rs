use tinct::ast::Annotation;
use tinct::open::MAX_PARSE_DEPTH;
use tinct::parser2::parse2;
use tinct::tree::{Expr, Located};

fn parse_expr(input: &str) -> Located<Expr> {
    let mut output = parse2(input).expect("parse failed");
    output.file.node.documents[0].node.expressions.remove(0)
}

#[test]
fn parser2_test_empty_dict() {
    let output = parse2("[]").expect("parse failed");
    let doc = &output.file.node.documents[0].node;
    assert_eq!(doc.expressions.len(), 1);
    match &doc.expressions[0].node {
        Expr::Dict(entries) => {
            assert_eq!(entries.len(), 0);
        }
        other => panic!("expected Dict, got {other:?}"),
    }
}

#[test]
fn parser2_test_dict_one_value() {
    let output = parse2("[42]").expect("parse failed");
    let doc = &output.file.node.documents[0].node;
    assert_eq!(doc.expressions.len(), 1);
    match &doc.expressions[0].node {
        Expr::Dict(entries) => {
            assert_eq!(entries.len(), 1);
            assert!(entries[0].node.key.is_none());
            assert!(matches!(&entries[0].node.value.node, Expr::Int(42)));
        }
        other => panic!("expected Dict, got {other:?}"),
    }
}

#[test]
fn parser2_test_keyed_entry() {
    let output = parse2("[a: 1 b: 2]").expect("parse failed");
    let doc = &output.file.node.documents[0].node;
    match &doc.expressions[0].node {
        Expr::Dict(entries) => {
            assert_eq!(entries.len(), 2);
            assert!(entries[0].node.key.is_some());
            match &entries[0].node.key.as_ref().unwrap().node {
                Expr::Str(s) => assert_eq!(s, "a"),
                other => panic!("expected key 'a', got {other:?}"),
            }
            assert!(matches!(&entries[0].node.value.node, Expr::Int(1)));
            assert!(entries[1].node.key.is_some());
            match &entries[1].node.key.as_ref().unwrap().node {
                Expr::Str(s) => assert_eq!(s, "b"),
                other => panic!("expected key 'b', got {other:?}"),
            }
            assert!(matches!(&entries[1].node.value.node, Expr::Int(2)));
        }
        other => panic!("expected Dict, got {other:?}"),
    }
}

#[test]
fn parser2_test_call_simple() {
    let output = parse2("[call $f 1 2]").expect("parse failed");
    let doc = &output.file.node.documents[0].node;
    match &doc.expressions[0].node {
        Expr::Call {
            func,
            args,
            named_args,
        } => {
            match &func.node {
                Expr::VarRef(name) => assert_eq!(name, "f"),
                other => panic!("expected VarRef for func, got {other:?}"),
            }
            assert_eq!(args.len(), 2);
            assert!(matches!(&args[0].node, Expr::Int(1)));
            assert!(matches!(&args[1].node, Expr::Int(2)));
            assert_eq!(named_args.len(), 0);
        }
        other => panic!("expected Call, got {other:?}"),
    }
}

#[test]
fn parser2_test_call_named_args() {
    let output = parse2("[call $f x: 1]").expect("parse failed");
    let doc = &output.file.node.documents[0].node;
    match &doc.expressions[0].node {
        Expr::Call {
            func,
            args,
            named_args,
        } => {
            match &func.node {
                Expr::VarRef(name) => assert_eq!(name, "f"),
                other => panic!("expected VarRef for func, got {other:?}"),
            }
            assert_eq!(args.len(), 0);
            assert_eq!(named_args.len(), 1);
            assert_eq!(named_args[0].node.name, "x");
            assert!(matches!(&named_args[0].node.value.node, Expr::Int(1)));
        }
        other => panic!("expected Call, got {other:?}"),
    }
}

#[test]
fn parser2_test_fn_simple() {
    let output = parse2("[fn 42]").expect("parse failed");
    let doc = &output.file.node.documents[0].node;
    match &doc.expressions[0].node {
        Expr::Fn {
            params,
            body,
            return_ann,
            desugared,
        } => {
            assert_eq!(params.len(), 0);
            assert!(matches!(&body.node, Expr::Int(42)));
            assert!(return_ann.is_none());
            assert_eq!(*desugared, false);
        }
        other => panic!("expected Fn, got {other:?}"),
    }
}

#[test]
fn parser2_test_type_alias() {
    let output = parse2("[type 42]").expect("parse failed");
    let doc = &output.file.node.documents[0].node;
    match &doc.expressions[0].node {
        Expr::TypeAlias(inner) => {
            assert!(matches!(&inner.node, Expr::Int(42)));
        }
        other => panic!("expected TypeAlias, got {other:?}"),
    }
}

#[test]
fn parser2_test_literal_int() {
    let expr = parse_expr("42");
    assert!(matches!(expr.node, Expr::Int(42)));
}

#[test]
fn parser2_test_depth_limit() {
    let mut input = String::new();
    for _ in 0..MAX_PARSE_DEPTH {
        input.push('[');
    }
    input.push('[');
    for _ in 0..=MAX_PARSE_DEPTH {
        input.push(']');
    }

    let err = parse2(&input).unwrap_err();
    assert!(err.message.contains("maximum nesting depth exceeded"));
}

#[test]
fn parser2_test_type_assert_simple() {
    let output = parse2("[@Number 42]").expect("parse failed");
    let doc = &output.file.node.documents[0].node;
    match &doc.expressions[0].node {
        Expr::TypeAssert {
            annotation, expr, ..
        } => {
            match &annotation.node {
                Annotation::Simple(name) => assert_eq!(name, "Number"),
                other => panic!("expected Simple annotation, got {other:?}"),
            }
            assert!(matches!(&expr.node, Expr::Int(42)));
        }
        other => panic!("expected TypeAssert, got {other:?}"),
    }
}

#[test]
fn test_bracket_access_literal_key() {
    let output = parse2("$a[0]").expect("parse failed");
    let doc = &output.file.node.documents[0].node;
    match &doc.expressions[0].node {
        Expr::BracketAccess { expr, key } => {
            match &expr.node {
                Expr::VarRef(name) => assert_eq!(name, "a"),
                other => panic!("expected VarRef, got {other:?}"),
            }
            assert!(matches!(&key.node, Expr::Int(0)));
        }
        other => panic!("expected BracketAccess, got {other:?}"),
    }
}

#[test]
fn test_bracket_access_variable_key() {
    let output = parse2("$a[$key]").expect("parse failed");
    let doc = &output.file.node.documents[0].node;
    match &doc.expressions[0].node {
        Expr::BracketAccess { expr, key } => {
            match &expr.node {
                Expr::VarRef(name) => assert_eq!(name, "a"),
                other => panic!("expected VarRef, got {other:?}"),
            }
            match &key.node {
                Expr::VarRef(name) => assert_eq!(name, "key"),
                other => panic!("expected VarRef key, got {other:?}"),
            }
        }
        other => panic!("expected BracketAccess, got {other:?}"),
    }
}

#[test]
fn parser2_test_call_empty() {
    let err = parse2("[call]").unwrap_err();
    assert!(
        err.message.contains("call form requires"),
        "expected error about call form requiring a function, got: {}",
        err.message
    );
}

#[test]
fn parser2_test_call_func_as_named_arg() {
    let err = parse2("[call f: $x]").unwrap_err();
    assert!(
        err.message.contains("named argument"),
        "expected error about named argument, got: {}",
        err.message
    );
}

#[test]
fn parser2_test_dict_pending_key_no_value() {
    let err = parse2("[a:]").unwrap_err();
    assert!(
        err.message.contains("key without value"),
        "expected 'key without value' error, got: {}",
        err.message
    );
}

#[test]
fn parser2_test_call_pending_named_arg_no_value() {
    let err = parse2("[call $f x:]").unwrap_err();
    assert!(
        err.message.contains("without value"),
        "expected 'without value' error for named arg, got: {}",
        err.message
    );
}

#[test]
fn parser2_test_type_alias_empty() {
    let err = parse2("[type]").unwrap_err();
    assert!(
        err.message.contains("type-alias form requires"),
        "expected error about type-alias requiring a type expression, got: {}",
        err.message
    );
}

#[test]
fn parser2_test_type_assert_no_annotation() {
    let err = parse2("[@]").unwrap_err();
    assert!(
        err.message
            .contains("expected annotation name or bracket dict after @"),
        "expected error about invalid annotation token, got: {}",
        err.message
    );
}

#[test]
fn parser2_test_type_assert_no_expr() {
    let err = parse2("[@Number]").unwrap_err();
    assert!(
        err.message
            .contains("type-assert form requires an expression"),
        "expected error about missing expression, got: {}",
        err.message
    );
}

#[test]
fn test_bracket_access_empty() {
    let err = parse2("$a[]").unwrap_err();
    assert!(
        err.message
            .contains("bracket access requires a key expression"),
        "expected error about empty key, got: {}",
        err.message
    );
}

#[test]
fn parser2_test_colon_outside_dict_call() {
    let err = parse2("[fn :]").unwrap_err();
    assert!(
        err.message.contains("key without value") || err.message.contains("`:` without a key"),
        "expected key-related error for [fn :], got: {}",
        err.message
    );
    let err2 = parse2("[type x :]").unwrap_err();
    assert!(
        err2.message
            .contains("`:` can only appear in dict or call forms"),
        "expected error about colon in wrong context for [type x :], got: {}",
        err2.message
    );
}

#[test]
fn parser2_test_colon_without_key_in_dict() {
    let err = parse2("[:]").unwrap_err();
    assert!(
        err.message.contains("`:` without a key"),
        "expected error about colon without key, got: {}",
        err.message
    );
}

#[test]
fn parser2_test_fn_multiple_bodies() {
    let err = parse2("[fn 1 2]").unwrap_err();
    assert!(
        err.message
            .contains("fn form can only have one body expression"),
        "expected error about multiple body expressions, got: {}",
        err.message
    );
}

#[test]
fn parser2_test_type_alias_multiple_exprs() {
    let err = parse2("[type 1 2]").unwrap_err();
    assert!(
        err.message
            .contains("type-alias form can only have one type expression"),
        "expected error about multiple expressions, got: {}",
        err.message
    );
}

#[test]
fn parser2_test_type_assert_multiple_exprs() {
    let err = parse2("[@Number 1 2]").unwrap_err();
    assert!(
        err.message
            .contains("type-assert form can only have one expression"),
        "expected error about multiple expressions, got: {}",
        err.message
    );
}

#[test]
fn parser2_test_fn_empty() {
    let err = parse2("[fn]").unwrap_err();
    assert!(
        err.message.contains("fn form requires a body expression"),
        "expected error about fn requiring a body, got: {}",
        err.message
    );
}

#[test]
fn parser2_test_keyword_as_dict_key() {
    let output = parse2("[call: 1]").expect("parse failed");
    let doc = &output.file.node.documents[0].node;
    match &doc.expressions[0].node {
        Expr::Dict(entries) => {
            assert_eq!(entries.len(), 1);
            let key = entries[0].node.key.as_ref().expect("expected keyed entry");
            match &key.node {
                Expr::Str(s) => assert_eq!(s, "call"),
                other => panic!("expected key 'call', got {other:?}"),
            }
            assert!(matches!(&entries[0].node.value.node, Expr::Int(1)));
        }
        other => panic!("expected Dict, got {other:?}"),
    }
}

#[test]
fn parser2_test_all_keywords_as_dict_keys() {
    let output = parse2("[call: 1 fn: 2 type: 3]").expect("parse failed");
    let doc = &output.file.node.documents[0].node;
    match &doc.expressions[0].node {
        Expr::Dict(entries) => {
            assert_eq!(entries.len(), 3);
            let expected_keys = ["call", "fn", "type"];
            let expected_values = [1i64, 2, 3];
            for (i, (key, val)) in expected_keys.iter().zip(expected_values.iter()).enumerate()
            {
                let entry_key = entries[i].node.key.as_ref().expect("expected keyed entry");
                match &entry_key.node {
                    Expr::Str(s) => assert_eq!(s.as_str(), *key),
                    other => panic!("expected key '{key}', got {other:?}"),
                }
                match &entries[i].node.value.node {
                    Expr::Int(n) => assert_eq!(*n, *val),
                    other => panic!("expected Int({val}), got {other:?}"),
                }
            }
        }
        other => panic!("expected Dict, got {other:?}"),
    }
}

#[test]
fn parser2_test_whitespace_in_form_classification() {
    let output = parse2("[ call $f]").expect("parse failed");
    let doc = &output.file.node.documents[0].node;
    match &doc.expressions[0].node {
        Expr::Call {
            func,
            args,
            named_args,
        } => {
            match &func.node {
                Expr::VarRef(name) => assert_eq!(name, "f"),
                other => panic!("expected VarRef for func, got {other:?}"),
            }
            assert_eq!(args.len(), 0);
            assert_eq!(named_args.len(), 0);
        }
        other => panic!("expected Call, got {other:?}"),
    }
}

#[test]
fn parser2_test_keyed_entry_with_bracket_value() {
    let output = parse2("[a: [1]]").expect("parse failed");
    let doc = &output.file.node.documents[0].node;
    match &doc.expressions[0].node {
        Expr::Dict(entries) => {
            assert_eq!(entries.len(), 1);
            let key = entries[0].node.key.as_ref().expect("expected keyed entry");
            match &key.node {
                Expr::Str(s) => assert_eq!(s, "a"),
                other => panic!("expected key 'a', got {other:?}"),
            }
            match &entries[0].node.value.node {
                Expr::Dict(inner_entries) => {
                    assert_eq!(inner_entries.len(), 1);
                    assert!(matches!(&inner_entries[0].node.value.node, Expr::Int(1)));
                }
                other => panic!("expected inner Dict, got {other:?}"),
            }
        }
        other => panic!("expected Dict, got {other:?}"),
    }
}

#[test]
fn parser2_test_call_named_arg_bracket_value() {
    let output = parse2("[call $f x: [1]]").expect("parse failed");
    let doc = &output.file.node.documents[0].node;
    match &doc.expressions[0].node {
        Expr::Call {
            func,
            args,
            named_args,
        } => {
            match &func.node {
                Expr::VarRef(name) => assert_eq!(name, "f"),
                other => panic!("expected VarRef for func, got {other:?}"),
            }
            assert_eq!(args.len(), 0);
            assert_eq!(named_args.len(), 1);
            assert_eq!(named_args[0].node.name, "x");
            match &named_args[0].node.value.node {
                Expr::Dict(inner_entries) => {
                    assert_eq!(inner_entries.len(), 1);
                    assert!(matches!(&inner_entries[0].node.value.node, Expr::Int(1)));
                }
                other => panic!("expected inner Dict for named arg value, got {other:?}"),
            }
        }
        other => panic!("expected Call, got {other:?}"),
    }
}

#[test]
fn parser2_test_call_only_named_args() {
    let output = parse2("[call $f x: 1 y: 2]").expect("parse failed");
    let doc = &output.file.node.documents[0].node;
    match &doc.expressions[0].node {
        Expr::Call {
            func,
            args,
            named_args,
        } => {
            match &func.node {
                Expr::VarRef(name) => assert_eq!(name, "f"),
                other => panic!("expected VarRef for func, got {other:?}"),
            }
            assert_eq!(args.len(), 0);
            assert_eq!(named_args.len(), 2);
            assert_eq!(named_args[0].node.name, "x");
            assert!(matches!(&named_args[0].node.value.node, Expr::Int(1)));
            assert_eq!(named_args[1].node.name, "y");
            assert!(matches!(&named_args[1].node.value.node, Expr::Int(2)));
        }
        other => panic!("expected Call, got {other:?}"),
    }
}

#[test]
fn parser2_test_unmatched_closing_bracket() {
    let err = parse2("]").unwrap_err();
    assert!(
        err.message.contains("unmatched closing bracket"),
        "expected 'unmatched closing bracket' error, got: {}",
        err.message
    );
}

#[test]
fn parser2_test_unclosed_bracket() {
    let err = parse2("[").unwrap_err();
    assert!(
        err.message.contains("unclosed bracket"),
        "expected 'unclosed bracket' error, got: {}",
        err.message
    );
}

#[test]
fn parser2_test_call_colon_without_key() {
    let err = parse2("[call $f :]").unwrap_err();
    assert!(
        err.message.contains("without a name"),
        "expected error about colon without a name in call frame, got: {}",
        err.message
    );
}

#[test]
fn test_bracket_access_inside_dict_errors() {
    let err = parse2("[a: $x[0]]").unwrap_err();
    assert!(
        err.message.contains("bracket access inside"),
        "expected error about bracket access inside dict/call context, got: {}",
        err.message
    );
}

#[test]
fn parser2_test_annotation_invalid_token() {
    let err = parse2("[@123]").unwrap_err();
    assert!(
        err.message
            .contains("expected annotation name or bracket dict after @"),
        "expected error about invalid annotation token, got: {}",
        err.message
    );
}

#[test]
fn test_nested_bracket_access() {
    let output = parse2("$a[0][1]").expect("parse failed");
    let doc = &output.file.node.documents[0].node;
    match &doc.expressions[0].node {
        Expr::BracketAccess {
            expr: outer_expr,
            key: outer_key,
        } => {
            assert!(
                matches!(&outer_key.node, Expr::Int(1)),
                "expected outer key Int(1), got {:?}",
                outer_key.node
            );
            match &outer_expr.node {
                Expr::BracketAccess {
                    expr: inner_expr,
                    key: inner_key,
                } => {
                    match &inner_expr.node {
                        Expr::VarRef(name) => assert_eq!(name, "a"),
                        other => panic!("expected VarRef('a') as inner target, got {other:?}"),
                    }
                    assert!(
                        matches!(&inner_key.node, Expr::Int(0)),
                        "expected inner key Int(0), got {:?}",
                        inner_key.node
                    );
                }
                other => panic!("expected inner BracketAccess, got {other:?}"),
            }
        }
        other => panic!("expected outer BracketAccess, got {other:?}"),
    }
}

#[test]
fn parser2_test_mixed_keyed_and_auto_indexed() {
    let output = parse2("[a: 1 2 b: 3]").expect("parse failed");
    let doc = &output.file.node.documents[0].node;
    match &doc.expressions[0].node {
        Expr::Dict(entries) => {
            assert_eq!(
                entries.len(),
                3,
                "expected 3 entries, got {}",
                entries.len()
            );
            let key0 = entries[0]
                .node
                .key
                .as_ref()
                .expect("entry 0 should have key");
            match &key0.node {
                Expr::Str(s) => assert_eq!(s, "a"),
                other => panic!("expected key 'a', got {other:?}"),
            }
            assert!(matches!(&entries[0].node.value.node, Expr::Int(1)));
            assert!(
                entries[1].node.key.is_none(),
                "entry 1 should be auto-indexed (no key)"
            );
            assert!(matches!(&entries[1].node.value.node, Expr::Int(2)));
            let key2 = entries[2]
                .node
                .key
                .as_ref()
                .expect("entry 2 should have key");
            match &key2.node {
                Expr::Str(s) => assert_eq!(s, "b"),
                other => panic!("expected key 'b', got {other:?}"),
            }
            assert!(matches!(&entries[2].node.value.node, Expr::Int(3)));
        }
        other => panic!("expected Dict, got {other:?}"),
    }
}
