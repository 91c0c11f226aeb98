use std::collections::BTreeMap;
use std::sync::Arc;
use tinct::ast::{Annotation, Span, SurfaceDeclaration, SurfaceExpression, SurfaceItem, SurfaceNode};
use tinct::diagnostic::DiagnosticLevel;
use tinct::direct::parse_bracket_annotation_dict;
use tinct::lexer::{tokenize, Token};
use tinct::open::MAX_PARSE_DEPTH;
use tinct::parser::{parse, parse_surface_expression, parse_with_recovery, ParseOutput};
use tinct::report::{format_parse_error, render_span_snippet};
use tinct::stream::{skip_to_closing_bracket, span_key, Comments};

fn file() -> Arc<String> {
    Arc::new("a.llt".to_string())
}

fn parsed(source: &str) -> ParseOutput {
    parse(source, file()).unwrap_or_else(|d| panic!("{}: {}", source, d.message))
}

/// The message and the place of the error that ends the parse of a source.
fn fatal(source: &str) -> (String, u32, u32) {
    match parse(source, file()) {
        Ok(_) => panic!("{} can be parsed", source),
        Err(d) => {
            assert_eq!(d.kind, "parse-error");
            assert_eq!(d.level, DiagnosticLevel::Error);
            let span = &d.spans[0].0;
            (d.message.clone(), span.start_line, span.start_col)
        }
    }
}

/// The messages of the errors from which the parse of a source went on.
fn recovered(source: &str) -> Vec<String> {
    let output = parsed(source);
    for d in &output.diagnostics {
        assert_eq!(d.kind, "parse-error");
        assert_eq!(d.level, DiagnosticLevel::Error);
    }
    output.diagnostics.iter().map(|d| d.message.clone()).collect()
}

fn first(output: &ParseOutput) -> &SurfaceNode {
    match &output.program.documents[0].node.items[0] {
        SurfaceItem::Expr(n) => n,
        SurfaceItem::Decl(_) => panic!("a declaration"),
    }
}

fn region(start_line: u32, start_col: u32, end_line: u32, end_col: u32) -> Span {
    Span { file: file(), start_line, start_col, end_line, end_col, name: None }
}

#[test]
fn errors_that_end_the_parse() {
    let cases: Vec<(&str, &str, u32, u32)> = vec![
        ("]", "unmatched closing bracket", 1, 1),
        ("a: 1", "`:` at document top level (no enclosing bracket form)", 1, 2),
        ("| a", "pipe operator requires a left-hand expression before '|'", 1, 1),
        ("[a\n---\n]", "document separator cannot appear inside bracket expressions", 2, 1),
        ("x@]", "annotation @ requires an expression before `]`", 1, 3),
        ("a.", "expected field name after '.'", 1, 2),
        (".1", "leading-dot requires an identifier field name; integer index '.N' is not valid without a target expression", 1, 2),
        ("a.[b]", "expected field name (identifier or integer) after '.', found OpenBracket", 1, 3),
        ("a.\"b\"", "expected field name (identifier or integer) after '.', found StringLiteral { prefix: \"\", delimiter: \"\\\"\", content: \"b\" }", 1, 3),
        ("a | ", "pipe operator '|' requires a right-hand expression", 1, 3),
        ("[type A] | b", "pipe operator requires a value expression, not a declaration", 1, 10),
        ("[type A].b", "dot access requires a value expression, not a declaration", 1, 9),
        ("--- %", "bare '%' in section header: expected a name after '%' (e.g. '--- %name')", 1, 5),
        ("--- %a\n1\n--- %a", "duplicate section name '%a' in file", 3, 5),
        ("--- stage", "expected ':' after 'stage' in header", 1, 5),
        ("--- stage:", "expected value after 'stage:' in header", 1, 10),
        ("--- stage: ]", "unexpected ']' in header value", 1, 12),
        ("--- [", "unexpected token in section header: OpenBracket", 1, 5),
        ("--- k: :", "unexpected ':' in header value", 1, 8),
        ("--- k: |", "unsupported token in header value: Pipe", 1, 8),
        ("--- k: [1", "unexpected end of input while parsing header value for 'k'", 1, 9),
        ("--- k: [1\n]", "failed to parse value for header key 'k'", 1, 8),
        ("99999999999999999999", "integer literal out of range", 1, 1),
    ];
    for (source, message, line, col) in cases {
        assert_eq!(fatal(source), (message.to_string(), line, col), "{}", source);
    }
}

#[test]
fn errors_that_are_recovered() {
    let cases: Vec<(&str, &str)> = vec![
        ("[a: 1 \"a\": 2]", "duplicate key \"a\""),
        ("[1: 1 1: 2]", "duplicate key \"1\""),
        ("[x: ]", "key without value: expected `:` and value"),
        ("[: 1]", "`:` without a key (expected key before `:`)"),
        ("[call]", "call form requires at least a function expression"),
        ("[call f a:]", "named argument `a` without value"),
        ("[fn]", "fn form requires a body expression"),
        ("[fn [x y] x]", "`[fn ...]` parameter bracket must start with `let` (e.g. `[fn [let x y] body]`)"),
        ("[type]", "type-alias form requires at least one type expression"),
        ("[type [a b] B]", "`[type ...]` parameter bracket must start with `let` (e.g. `[type [let a b] Body]`)"),
        ("[quote]", "quote form requires an expression"),
        ("[quote 1 2]", "quote form can only have one expression"),
        ("[unquote]", "unquote form requires an expression"),
        ("[unquote-splice]", "unquote-splice form requires an expression"),
        ("[match]", "match form requires a scrutinee expression"),
        ("[match x]", "match form requires at least one pattern: body pair"),
        ("[match x 1:]", "match pattern must be followed by a body expression"),
        ("[match 1 : 1]", "`:` without a pattern (expected pattern: body in match)"),
        ("[case [let x] x 1]", "[case ...] must appear inside [match ...]"),
        ("[let\n: 1]", "`:` without a left-hand side in [let ...] form"),
        ("[let 1: 2]", "`:` in [let ...] must follow a bare identifier or a binding group `[a b]`"),
        ("[quote\n: 1]", "`:` is not valid inside a quote form (opened at 1:1)"),
        ("[instance]", "instance form requires a class name"),
        ("[syntax-class]", "syntax-class form requires a name"),
        ("[@T]", "type-assert form [@Annotation expr] requires an expression"),
        ("[| a]", "pipe operator requires a left-hand expression before '|'"),
    ];
    let mut missing: Vec<String> = Vec::new();
    for (source, message) in cases {
        let all = recovered(source);
        if !all.iter().any(|m| m == message) {
            missing.push(format!("{}: {:?}", source, all));
        }
    }
    assert_eq!(missing, Vec::<String>::new());
}

#[test]
fn unclosed_brackets_are_counted() {
    assert_eq!(
        fatal("[a [b"),
        ("2 unclosed brackets — open at: 1:1 (call), 1:4 (call)".to_string(), 1, 4)
    );
    assert_eq!(
        fatal("[a: 1\n[b]"),
        (
            "unclosed bracket at 1:1 (dict) (extra call opened at 2:1 consumed the expected close; last token at 2:3)"
                .to_string(),
            1,
            1
        )
    );
}

#[test]
fn a_diagnostic_as_text() {
    let source = "[a: 1\n [b: 2 b: 3]]";
    let output = parsed(source);
    assert_eq!(
        format_parse_error(&output.diagnostics[0], source, "a.llt"),
        "error: duplicate key \"b\"\n --> a.llt:2:11\n  |\n2 |  [b: 2 b: 3]]\n  |           ^\n  = note: while parsing dict\n"
    );
}

#[test]
fn the_line_of_a_place_is_shown() {
    let source = "one\r\ntwo\r\nthree";
    assert_eq!(render_span_snippet(source, &region(2, 2, 2, 4)), Some("2 | two\n  |  ^^\n".to_string()));
    assert_eq!(
        render_span_snippet(source, &region(2, 3, 3, 1)),
        Some("2 | two\n  |   ^\n".to_string())
    );
    assert_eq!(
        render_span_snippet(source, &region(3, 5, 3, 5)),
        Some("3 | three\n  |     ^\n".to_string())
    );
    assert_eq!(render_span_snippet(source, &region(4, 1, 4, 1)), None);
    assert_eq!(render_span_snippet(source, &region(0, 1, 0, 1)), None);
}

#[test]
fn brackets_open_up_to_the_limit() {
    let deep = |n: usize| format!("{}{}", "[".repeat(n), "]".repeat(n));
    assert!(parse(&deep(MAX_PARSE_DEPTH), file()).is_ok());
    assert_eq!(
        fatal(&deep(MAX_PARSE_DEPTH + 1)),
        ("maximum nesting depth exceeded (limit: 256)".to_string(), 1, 257)
    );
}

#[test]
fn keys_of_a_dict_differ() {
    let output = parsed("[a: 1 b: 2 a: 3]");
    assert_eq!(output.diagnostics.len(), 1);
    match &first(&output).expr {
        SurfaceExpression::Dict(entries) => {
            assert_eq!(entries.len(), 3);
            assert!(entries[0].node.key.is_some());
            assert!(entries[1].node.key.is_some());
            assert!(entries[2].node.key.is_none());
            assert!(matches!(entries[2].node.value.expr, SurfaceExpression::Error(_)));
        }
        other => panic!("{:?}", other),
    }
}

#[test]
fn a_key_can_come_back_after_a_field_access() {
    assert_eq!(recovered("[a: x.y.z b: 1]").len(), 0);
    assert_eq!(recovered("[a: x.y a: 1]"), vec!["duplicate key \"a\""]);
}

#[test]
fn arguments_come_in_any_order() {
    match &first(&parsed("[f a: 1 2 b: 3 4]")).expr {
        SurfaceExpression::Call { args, named_args, implied, .. } => {
            assert!(*implied);
            assert_eq!(args.len(), 2);
            assert_eq!(args[0].expr, SurfaceExpression::Int(2));
            assert_eq!(args[1].expr, SurfaceExpression::Int(4));
            assert_eq!(named_args.len(), 2);
            assert_eq!(named_args[0].node.name, "a");
            assert_eq!(named_args[1].node.name, "b");
        }
        other => panic!("{:?}", other),
    }
}

#[test]
fn names_of_arguments_can_have_annotations() {
    match &first(&parsed("[Ctor 1 field@Ann: baz.name other: 2]")).expr {
        SurfaceExpression::Call { args, named_args, .. } => {
            assert_eq!(args.len(), 1);
            assert_eq!(named_args.len(), 2);
            assert_eq!(named_args[0].node.name, "field");
            assert!(matches!(named_args[0].node.value.expr, SurfaceExpression::Field { .. }));
            assert_eq!(
                named_args[0].node.annotation.as_ref().map(|a| &a.node),
                Some(&Annotation::Simple("Ann".to_string()))
            );
            assert!(named_args[1].node.annotation.is_none());
        }
        other => panic!("{:?}", other),
    }
    match &first(&parsed("[f x@[doc: \"d\"]: 1]")).expr {
        SurfaceExpression::Call { named_args, .. } => {
            assert!(matches!(
                named_args[0].node.annotation.as_ref().map(|a| &a.node),
                Some(Annotation::PropertyDict(entries)) if entries.len() == 1
            ));
        }
        other => panic!("{:?}", other),
    }
    let message = "`:` without a name (expected bare word before `:` for named arg)";
    assert_eq!(recovered("[f $x@T: 1]"), vec![message]);
    assert_eq!(recovered("[f 1 : 2]"), vec![message]);
}

/// The number of errors in an expression made of dicts and calls.
fn errors_in(node: &SurfaceNode) -> usize {
    match &node.expr {
        SurfaceExpression::Error(_) => 1,
        SurfaceExpression::Dict(entries) => entries.iter().map(|e| errors_in(&e.node.value)).sum(),
        SurfaceExpression::Call { args, .. } => args.iter().map(|a| errors_in(a)).sum(),
        _ => 0,
    }
}

#[test]
fn errors_in_a_tree_are_reported() {
    let cases: Vec<(&str, usize)> = vec![
        ("[a: 1 b: [c: 2]]", 0),
        ("[a: 1 b: [c: ]]", 1),
        ("[[a: 1 a: 2] [c: 3 c: 4]]", 2),
        ("[f x [1 a: 1 a: 2]]", 1),
    ];
    for (source, count) in cases {
        let output = parsed(source);
        assert_eq!(errors_in(first(&output)), count, "{}", source);
        assert_eq!(output.diagnostics.len(), count, "{}", source);
    }
}

#[test]
fn outputs_can_be_copied() {
    let output = parsed("--- %one\n[a: 1 b: [f x]] # c\n\n[type A: [b: C]] [d: ]");
    assert_eq!(output.clone(), output);
}

#[test]
fn headers_keep_the_order_of_first_insertion() {
    let output = parsed("--- b: 1 a: 2 b: 3\nx");
    let header = &output.program.documents[1].node.header;
    assert_eq!(header.len(), 2);
    assert_eq!(header.get_index_of("b"), Some(0));
    assert_eq!(header.get_index_of("a"), Some(1));
    assert_eq!(header["b"].expr, SurfaceExpression::Int(3));
    assert_eq!(header["a"].expr, SurfaceExpression::Int(2));
}

#[test]
fn a_section_has_a_name_and_an_annotation() {
    let output = parsed("--- %one@Int\n1\n--- %two\n2");
    let documents = &output.program.documents;
    assert_eq!(documents.len(), 3);
    assert_eq!(documents[1].node.header.len(), 2);
    assert!(matches!(
        &documents[1].node.header["name"].expr,
        SurfaceExpression::StringLiteral { content, .. } if content == "one"
    ));
    assert!(matches!(
        documents[1].node.header["output-annotation"].expr,
        SurfaceExpression::TypeAssert { .. }
    ));
    assert_eq!(documents[2].node.header.len(), 1);
}

#[test]
fn comments_belong_to_tokens() {
    let output = parsed("# before\na # behind\n\nb");
    assert_eq!(output.leading_comments[&span_key(2, 1)], vec![" before".to_string()]);
    assert_eq!(output.trailing_comments[&span_key(2, 1)], " behind".to_string());
    assert_eq!(output.program.documents[0].node.items.len(), 2);
    assert_eq!(parsed("a\n\nb").program.documents[0].node.items.len(), 2);
}

#[test]
fn blank_lines_are_marked() {
    let output = parsed("1\n\n2");
    assert_eq!(output.blank_before.len(), 1);
    assert_eq!(output.blank_before.get(&span_key(3, 1)), Some(&true));
    assert!(parsed("1\n2").blank_before.is_empty());
    assert_eq!(parsed("1\n\n# c\n2").blank_before.get(&span_key(4, 1)), Some(&true));
    assert_eq!(parsed("[a: 1\n\n b: 2]").blank_before.get(&span_key(3, 2)), Some(&true));
    assert_eq!(parsed("1\n---\n\n2").blank_before.get(&span_key(4, 1)), Some(&true));
    assert_eq!(parsed("[f\n\n x]").blank_before.get(&span_key(3, 2)), Some(&true));
}

#[test]
fn trailing_comments_belong_to_the_node_before() {
    let cases: Vec<(&str, u32, u32)> = vec![
        ("[a: 1] # c", 1, 1),
        ("[a: 1\n] # c", 1, 1),
        ("x@Int # c", 1, 1),
        ("a.b.c # c", 1, 1),
        ("a\n.b # c", 1, 1),
        ("[x: 12 # c\n]", 1, 5),
        ("[a: 1 a: 2] # c", 1, 1),
        ("[f # c\n x]", 1, 2),
        ("[type A] # c", 1, 1),
        ("\"a\nb\" # c", 1, 1),
    ];
    for (source, line, col) in cases {
        let output = parsed(source);
        assert_eq!(output.trailing_comments.len(), 1, "{}", source);
        assert_eq!(
            output.trailing_comments.get(&span_key(line, col)).map(|c| c.as_str()),
            Some(" c"),
            "{}: {:?}",
            source,
            output.trailing_comments
        );
    }
}

#[test]
fn the_error_stands_for_the_broken_form() {
    for source in [
        "[fn]",
        "[@T]",
        "[type A: [x: Int] B:]",
        "[instance C m: 1]",
        "[instance]",
        "[match 1]",
        "[case [let x] x]",
    ] {
        let output = parsed(source);
        let items = &output.program.documents[0].node.items;
        assert_eq!(items.len(), 1, "{}: {:?}", source, items);
        assert_eq!(output.diagnostics.len(), 1, "{}: {:?}", source, output.diagnostics);
        match &items[0] {
            SurfaceItem::Expr(n) => {
                assert!(matches!(n.expr, SurfaceExpression::Error(_)), "{}", source)
            }
            SurfaceItem::Decl(_) => panic!("{}", source),
        }
    }
}

#[test]
fn the_last_arm_of_a_match_has_several_expressions() {
    match parse_surface_expression("[match x 1: a b]").map(|n| Arc::clone(&n)) {
        Ok(n) => match &n.expr {
            SurfaceExpression::Match { scrutinee, arms } => {
                assert!(matches!(&scrutinee.expr, SurfaceExpression::VarRef { name, .. } if name == "x"));
                assert_eq!(arms.len(), 1);
                assert_eq!(arms[0].pattern.expr, SurfaceExpression::Int(1));
                assert_eq!(arms[0].body.len(), 2);
            }
            other => panic!("{:?}", other),
        },
        Err(d) => panic!("{}", d.message),
    }
}

#[test]
fn declarations_with_keys() {
    let output = parsed("[syntax-class n pattern: [a b] message: \"m\"]");
    assert_eq!(output.diagnostics.len(), 0);
    match &output.program.documents[0].node.items[0] {
        SurfaceItem::Decl(d) => assert!(matches!(
            &d.node,
            SurfaceDeclaration::SyntaxClass { name, message: Some(m), .. } if name == "n" && m == "m"
        )),
        SurfaceItem::Expr(n) => panic!("{:?}", n),
    }
    assert_eq!(
        recovered("[syntax-class n other: 1]")[0],
        "syntax-class: unknown key 'other' (expected 'pattern' or 'message')"
    );
    let output = parsed("[instance C [pattern [a b]]: [m: 1]]");
    assert_eq!(output.diagnostics.len(), 0);
    match &output.program.documents[0].node.items[0] {
        SurfaceItem::Decl(d) => assert!(matches!(
            &d.node,
            SurfaceDeclaration::InstanceDecl { arms, .. } if arms.len() == 1 && arms[0].1.len() == 1
        )),
        SurfaceItem::Expr(n) => panic!("{:?}", n),
    }
}

#[test]
fn nested_brackets_are_one_value_of_an_annotation() {
    let tokens = match tokenize("[x: [a b] y [c: [d]]]", file()) {
        Ok(t) => t,
        Err(e) => panic!("{}", e.message),
    };
    let mut comments = Comments {
        leading: BTreeMap::new(),
        trailing: BTreeMap::new(),
        blank_before: BTreeMap::new(),
    };
    match parse_bracket_annotation_dict(&tokens, 0, &mut comments) {
        Ok(d) => {
            assert_eq!(d.next, tokens.len());
            assert_eq!(d.entries.len(), 3);
            assert!(matches!(
                &d.entries[0].node.key.as_ref().expect("a key").expr,
                SurfaceExpression::StringLiteral { content, .. } if content == "x"
            ));
            assert!(matches!(&d.entries[0].node.value.expr, SurfaceExpression::Dict(v) if v.is_empty()));
            assert_eq!(d.entries[0].node.value.span, region(1, 5, 1, 10));
            assert!(d.entries[1].node.key.is_none());
            assert!(d.entries[2].node.key.is_none());
        }
        Err(e) => panic!("{}", e.message),
    }
}

#[test]
fn recovery_skips_to_the_closing_bracket() {
    let tokens = match tokenize("a [b] c ] d ]", file()) {
        Ok(t) => t,
        Err(e) => panic!("{}", e.message),
    };
    assert_eq!(skip_to_closing_bracket(&tokens, 0), 5);
    assert_eq!(skip_to_closing_bracket(&tokens, 6), 7);
    assert_eq!(skip_to_closing_bracket(&tokens, 8), 8);
}

#[test]
fn tokens_stand_one_behind_the_other() {
    let source = "[a: 1.5\n \"s\" x@T] # c\n--- a...b $r -3 .f";
    let tokens = match tokenize(source, file()) {
        Ok(t) => t,
        Err(e) => panic!("{}", e.message),
    };
    for k in 1..tokens.len() {
        let a = &tokens[k - 1].span;
        let b = &tokens[k].span;
        assert!((a.start_line, a.start_col) < (b.start_line, b.start_col));
        assert!((a.end_line, a.end_col) <= (b.start_line, b.start_col));
        assert!(span_key(a.start_line, a.start_col) < span_key(b.start_line, b.start_col));
    }
    assert_eq!(tokens[3].node, Token::Float("1.5".to_string()));
    assert_eq!(tokens[7].node, Token::ImmediateAt);
    assert_eq!(tokens[tokens.len() - 3].node, Token::Int(-3));
}

#[test]
fn numerals_are_read_back() {
    for n in [0, 7, 10, -1, -907, i64::MAX, i64::MIN] {
        let text = format!("{}", n);
        match tokenize(&text, file()) {
            Ok(tokens) => {
                assert_eq!(tokens.len(), 1);
                assert_eq!(tokens[0].node, Token::Int(n));
            }
            Err(e) => panic!("{}", e.message),
        }
    }
    match tokenize("18446744073709551615", file()) {
        Ok(tokens) => assert_eq!(tokens[0].node, Token::U64Lit(u64::MAX)),
        Err(e) => panic!("{}", e.message),
    }
}

#[test]
fn sources_that_have_no_tokens() {
    for (source, message, col) in [("a \"b", "unterminated string", 3), ("$ a", "expected a name after `$`", 1)] {
        match tokenize(source, file()) {
            Ok(_) => panic!("{}", source),
            Err(e) => {
                assert_eq!(e.message, message);
                assert_eq!((e.span.start_line, e.span.start_col), (1, col));
            }
        }
        assert_eq!(fatal(source).0, message);
    }
}

#[test]
fn a_source_has_a_document() {
    for source in ["", "  \n", "# c", "1", "---", "1\n---\n2"] {
        assert!(parsed(source).program.documents.len() > 0, "{}", source);
    }
}

#[test]
fn the_document_of_a_source_has_a_file() {
    for (source, file) in [("", "src/parser.rs"), (" \t", "src/parser.rs"), ("\n", "a.llt"), ("1", "a.llt")] {
        let span = &parsed(source).program.documents[0].span;
        assert_eq!(span.file.as_str(), file, "{}", source);
        assert_eq!((span.start_line, span.start_col, span.end_line, span.end_col), (1, 1, 1, 1));
    }
}

#[test]
fn the_first_expression_of_a_source() {
    match parse_surface_expression("[+ 1 2] 3") {
        Ok(n) => assert!(matches!(n.expr, SurfaceExpression::Call { .. })),
        Err(d) => panic!("{}", d.message),
    }
    match parse_surface_expression("[type A]") {
        Ok(n) => assert!(matches!(n.expr, SurfaceExpression::Decl(_))),
        Err(d) => panic!("{}", d.message),
    }
    match parse_surface_expression("") {
        Ok(_) => panic!("an expression of nothing"),
        Err(d) => assert_eq!(d.message, "no items in first document"),
    }
}

#[test]
fn recovery_keeps_the_error_that_ends_the_parse() {
    let output = parse_with_recovery("[a");
    assert_eq!(output.diagnostics.len(), 1);
    assert_eq!(output.program.documents.len(), 0);
    let output = parse_with_recovery("[a: 1 a: 2] b");
    assert_eq!(output.diagnostics.len(), 1);
    assert_eq!(output.program.documents[0].node.items.len(), 2);
}

#[test]
fn names_of_types_start_with_a_capital() {
    assert_eq!(recovered("[type \u{c4}: [x: Int]]").len(), 0);
    assert_eq!(
        recovered("[type \u{e4}: [x: Int]]"),
        vec!["`:` in [type ...] must follow an uppercase constructor name (e.g. `File: [path: String]`)"]
    );
    assert_eq!(recovered("[type [let a] a]").len(), 0);
}

#[test]
fn groups_of_bindings() {
    match &first(&parsed("[let a [b c]]")).expr {
        SurfaceExpression::LetDecl { bindings } => {
            assert_eq!(bindings.len(), 2);
            assert!(matches!(&bindings[1].expr, SurfaceExpression::LetDecl { bindings } if bindings.len() == 2));
        }
        other => panic!("{:?}", other),
    }
}
