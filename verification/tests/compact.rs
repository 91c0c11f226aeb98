use tinct::open::MAX_PARSE_DEPTH;
use tinct::parser2::parse2;
use tinct::tree::{Expr, Position, Region};

fn failure(source: &str) -> (String, Option<(usize, usize, usize)>) {
    match parse2(source) {
        Ok(_) => panic!("{} can be parsed", source),
        Err(e) => {
            (e.message, e.span.map(|r| (r.start.offset, r.start.line, r.start.column)))
        }
    }
}

#[test]
fn compact_errors() {
    let cases: Vec<(&str, &str, usize)> = vec![
        ("]", "unmatched closing bracket", 0),
        ("[call]", "call form requires at least a function expression", 5),
        ("[call f x:]", "named argument `x` without value", 8),
        ("x@T", "@ annotations outside type-assert or param contexts not yet supported", 1),
        ("[@[a] 1]", "property dict annotations (@[...]) not yet implemented", 2),
        ("[@1 1]", "expected annotation name or bracket dict after @, found Int(1)", 2),
        ("[@T]", "type-assert form requires an expression", 3),
        ("[@T 1 2]", "type-assert form can only have one expression", 6),
        ("[x: ]", "key without value: expected `:` and value", 1),
        ("[fn]", "fn form requires a body expression", 3),
        ("[fn 1 2]", "fn form can only have one body expression", 6),
        ("[type]", "type-alias form requires a type expression", 5),
        ("[type 1 2]", "type-alias form can only have one type expression", 8),
        ("a...", "variadic/rest markers not yet supported", 1),
        ("$y [a: $x[0]]", "bracket access inside dict/call contexts not yet supported", 9),
        ("---", "document separators not yet supported", 0),
        ("a .b", "dot access not yet supported", 2),
        ("1 .. 2", "range operator not yet supported", 2),
        ("9223372036854775808", "integer literal out of range", 0),
    ];
    let mut wrong: Vec<String> = Vec::new();
    for (source, message, offset) in cases {
        let (m, at) = failure(source);
        if m != message || at.map(|p| p.0) != Some(offset) {
            wrong.push(format!("{}: {} at {:?}", source, m, at));
        }
    }
    assert_eq!(wrong, Vec::<String>::new());
}

#[test]
fn compact_annotation_without_a_name() {
    assert_eq!(failure("[@"), ("unexpected end of input after @".to_string(), None));
}

#[test]
fn compact_depth_is_limited() {
    let deep = |n: usize| format!("{}{}", "[".repeat(n), "]".repeat(n));
    assert!(parse2(&deep(MAX_PARSE_DEPTH)).is_ok());
    let (message, at) = failure(&deep(MAX_PARSE_DEPTH + 1));
    assert_eq!(message, "maximum nesting depth exceeded (limit: 256)");
    assert_eq!(at, Some((MAX_PARSE_DEPTH, 1, MAX_PARSE_DEPTH + 1)));
}

#[test]
fn compact_places_count_bytes_and_columns() {
    let output = match parse2("\"\u{e4}\"\n 7") {
        Ok(o) => o,
        Err(e) => panic!("{}", e.message),
    };
    let expressions = &output.file.node.documents[0].node.expressions;
    assert_eq!(output.file.node.documents.len(), 1);
    assert_eq!(expressions[0].node, Expr::Str("\u{e4}".to_string()));
    assert_eq!(expressions[1].node, Expr::Int(7));
    assert_eq!(
        expressions[1].span,
        Region {
            start: Position { offset: 6, line: 2, column: 2 },
            end: Position { offset: 7, line: 2, column: 3 },
        }
    );
}

/// An expression without its places.
fn shape(e: &Expr) -> String {
    match e {
        Expr::Int(n) => format!("{}", n),
        Expr::Float(t) => t.clone(),
        Expr::Bool(b) => format!("{}", b),
        Expr::Str(t) => format!("{:?}", t),
        Expr::VarRef(t) => format!("${}", t),
        Expr::Dict(entries) => {
            let parts: Vec<String> = entries
                .iter()
                .map(|e| {
                    let key = e.node.key.as_ref().map_or("-".to_string(), |k| shape(&k.node));
                    format!("{}: {}", key, shape(&e.node.value.node))
                })
                .collect();
            format!("dict({})", parts.join(", "))
        }
        Expr::Call { func, args, named_args } => {
            let plain: Vec<String> = args.iter().map(|a| shape(&a.node)).collect();
            let named: Vec<String> = named_args
                .iter()
                .map(|a| format!("{}: {}", a.node.name, shape(&a.node.value.node)))
                .collect();
            format!("call {}({})({})", shape(&func.node), plain.join(", "), named.join(", "))
        }
        Expr::Fn { body, .. } => format!("fn {}", shape(&body.node)),
        Expr::TypeAlias(t) => format!("type {}", shape(&t.node)),
        Expr::TypeAssert { annotation, expr } => {
            format!("{:?} {}", annotation.node, shape(&expr.node))
        }
        Expr::BracketAccess { expr, key } => format!("{}[{}]", shape(&expr.node), shape(&key.node)),
    }
}

fn shapes(source: &str) -> Result<Vec<String>, String> {
    match parse2(source) {
        Ok(o) => Ok(o.file.node.documents[0]
            .node
            .expressions
            .iter()
            .map(|e| shape(&e.node))
            .collect()),
        Err(e) => Err(e.message),
    }
}

#[test]
fn compact_layout_has_no_meaning() {
    let cases: Vec<(&str, &str)> = vec![
        ("[a: 1 b: [call $f 2 x: 3]]", "[ # c\n a\n: 1; b:\n[\ncall $f\n2 x # d\n: 3]\n]"),
        ("[@T 1] [fn 2] [type 3]", "[\n@\nT\n1]\n\n[;fn 2]#e\n[type\n3\n]"),
        ("[a: ]", "[a\n: # f\n]"),
        ("[call]", "[;call;]"),
        ("[fn 1 2]", "[fn 1;2]"),
        ("[[", "[\n["),
    ];
    for (plain, spread) in cases {
        assert_eq!(shapes(plain), shapes(spread), "{}", spread);
    }
    assert_eq!(shapes("[a\n: 1]"), Ok(vec!["dict(\"a\": 1)".to_string()]));
    assert_eq!(shapes("[fn 1;2]"), Err("fn form can only have one body expression".to_string()));
}

#[test]
fn compact_output_can_be_copied() {
    let output = match parse2("[a: 1 b: [call $f 2 x: 3]] $x[0]") {
        Ok(o) => o,
        Err(e) => panic!("{}", e.message),
    };
    assert_eq!(output.clone(), output);
}
