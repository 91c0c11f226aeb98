use indexmap::IndexMap;
use std::sync::Arc;
use tinct::ast::{DotKey, Span, SurfaceExpression, SurfaceItem, SurfaceNode};
use tinct::console::{Action, Console, Event};
use tinct::parser::ParseOutput;
use tinct::repl::{
    recovered_lines, Environment, EvalError, Evaluated, Evaluation, Key, ReplSession, TypeEntry,
    MAX_FILE_SIZE,
};
use tinct::thunk::{EvalContext, Thunk, ThunkId, Value};

/// A session outside any library.
fn new_session() -> ReplSession {
    ReplSession::new(Ok((Environment::new(), EvalContext::new())), Ok(())).unwrap_or_else(|e| panic!("{}", e))
}

fn no_evaluation() -> Evaluation {
    Evaluation {
        types: Vec::new(),
        docs: Vec::new(),
        outcome: Err(EvalError { message: "not evaluated".to_string(), span: first_place() }),
    }
}

fn first_place() -> Span {
    Span {
        file: Arc::new("<repl>".to_string()),
        start_line: 1,
        start_col: 1,
        end_line: 1,
        end_col: 2,
        name: None,
    }
}

fn failed(message: &str, node: &SurfaceNode) -> EvalError {
    EvalError { message: message.to_string(), span: node.span.clone() }
}

/// The value of literals, names, fields, dicts with names, and sums and products.
fn value_of(session: &mut ReplSession, node: &SurfaceNode) -> Result<ThunkId, EvalError> {
    match &node.expr {
        SurfaceExpression::Int(n) => Ok(session.ctx.alloc_value(Value::Int(*n))),
        SurfaceExpression::StringLiteral { content, .. } => {
            Ok(session.ctx.alloc_value(Value::Str(content.clone())))
        }
        SurfaceExpression::VarRef { name, .. } => {
            session.env.get(name).ok_or_else(|| failed("undefined variable", node))
        }
        SurfaceExpression::Field { expr: Some(target), field: DotKey::Ident(name) } => {
            let id = value_of(session, target)?;
            match &session.ctx.get_thunk(id).expect("allocated").value {
                Value::Dict(map) => map.get(name).copied().ok_or_else(|| failed("no key", node)),
                _ => Err(failed("not a dict", node)),
            }
        }
        SurfaceExpression::Dict(entries) => {
            let mut map: IndexMap<String, ThunkId> = IndexMap::new();
            for e in entries {
                let id = value_of(session, &e.node.value)?;
                match e.node.key.as_ref().map(|k| &k.expr) {
                    Some(SurfaceExpression::StringLiteral { content, .. }) => {
                        map.insert(content.clone(), id);
                    }
                    _ => return Err(failed("only names are keys here", node)),
                }
            }
            Ok(session.ctx.alloc_value(Value::Dict(map)))
        }
        SurfaceExpression::Call { func, args, .. } => {
            let mut numbers: Vec<i64> = Vec::new();
            for a in args {
                let id = value_of(session, a)?;
                match session.ctx.get_thunk(id).expect("allocated").value {
                    Value::Int(n) => numbers.push(n),
                    _ => return Err(failed("not a number", a)),
                }
            }
            let result = match &func.expr {
                SurfaceExpression::VarRef { name, .. } if name == "+" => numbers.iter().sum(),
                SurfaceExpression::VarRef { name, .. } if name == "*" => numbers.iter().product(),
                _ => return Err(failed("unknown function", func)),
            };
            Ok(session.ctx.alloc_value(Value::Int(result)))
        }
        _ => Err(failed("cannot be evaluated", node)),
    }
}

fn show(session: &ReplSession, id: ThunkId) -> String {
    match &session.ctx.get_thunk(id).expect("allocated").value {
        Value::Int(n) => format!("Int({})", n),
        Value::Str(s) => format!("String({:?})", s),
        Value::Dict(map) => {
            let entries: Vec<String> = map
                .iter()
                .map(|(k, v)| format!("{:?}: {}", k, show(session, *v)))
                .collect();
            format!("Dict({{{}}})", entries.join(", "))
        }
        Value::Variant { tag, .. } => tag.clone(),
    }
}

fn evaluate(session: &mut ReplSession, output: &ParseOutput) -> Evaluation {
    let mut result: Result<ThunkId, EvalError> =
        Ok(session.ctx.alloc_value(Value::Dict(IndexMap::new())));
    for item in &output.program.documents[0].node.items {
        result = match item {
            SurfaceItem::Expr(node) => value_of(session, node),
            SurfaceItem::Decl(d) => {
                Err(EvalError { message: "declaration".to_string(), span: d.span.clone() })
            }
        };
    }
    let outcome = result.map(|id| {
        let entries = match &session.ctx.get_thunk(id).expect("allocated").value {
            Value::Dict(map) => {
                Some(map.iter().map(|(k, v)| (Key::Name(k.clone()), *v)).collect())
            }
            _ => None,
        };
        Evaluated { result: id, entries, display: show(session, id) }
    });
    Evaluation { types: Vec::new(), docs: Vec::new(), outcome }
}

fn eval_input(session: &mut ReplSession, input: &str) -> Result<String, String> {
    let output = session.read_input(input)?;
    let evaluation = evaluate(session, &output);
    session.commit(input, &output, evaluation)
}

#[test]
fn test_session_simple_int() {
    let mut session = new_session();
    assert_eq!(eval_input(&mut session, "42").unwrap(), "Int(42)");
}

#[test]
fn test_session_simple_string() {
    let mut session = new_session();
    assert_eq!(eval_input(&mut session, "\"hello\"").unwrap(), "String(\"hello\")");
}

#[test]
fn test_session_simple_dict() {
    let mut session = new_session();
    assert_eq!(
        eval_input(&mut session, "[x: 1 y: 2]").unwrap(),
        "Dict({\"x\": Int(1), \"y\": Int(2)})"
    );
}

#[test]
fn test_session_dict_extends_env() {
    let mut session = new_session();
    eval_input(&mut session, "[x: 42]").unwrap();
    assert_eq!(eval_input(&mut session, "x").unwrap(), "Int(42)");
}

#[test]
fn test_session_dict_overwrites_previous() {
    let mut session = new_session();
    eval_input(&mut session, "[x: 1]").unwrap();
    eval_input(&mut session, "[x: 99]").unwrap();
    assert_eq!(eval_input(&mut session, "x").unwrap(), "Int(99)");
}

#[test]
fn test_session_percent_pipeline() {
    let mut session = new_session();
    eval_input(&mut session, "42").unwrap();
    assert_eq!(eval_input(&mut session, "%").unwrap(), "Int(42)");
}

#[test]
fn an_entry_does_not_hide_the_result() {
    let mut session = new_session();
    assert_eq!(
        eval_input(&mut session, "[\"%\": 5 x: 6]").unwrap(),
        "Dict({\"%\": Int(5), \"x\": Int(6)})"
    );
    assert_eq!(eval_input(&mut session, "x").unwrap(), "Int(6)");
    eval_input(&mut session, "[\"%\": 5]").unwrap();
    assert_eq!(eval_input(&mut session, "%").unwrap(), "Dict({\"%\": Int(5)})");
}

#[test]
fn test_session_percent_dict_access() {
    let mut session = new_session();
    eval_input(&mut session, "[name: \"Alice\" age: 30]").unwrap();
    assert_eq!(eval_input(&mut session, "%.name").unwrap(), "String(\"Alice\")");
}

#[test]
fn test_session_percent_initial_empty_dict() {
    let mut session = new_session();
    assert_eq!(eval_input(&mut session, "%").unwrap(), "Dict({})");
}

#[test]
fn test_session_error_recovery() {
    let mut session = new_session();
    eval_input(&mut session, "[x: 42]").unwrap();
    assert!(eval_input(&mut session, "nonexistent").is_err());
    assert_eq!(eval_input(&mut session, "x").unwrap(), "Int(42)");
}

#[test]
fn test_session_error_does_not_update_percent() {
    let mut session = new_session();
    eval_input(&mut session, "42").unwrap();
    assert!(eval_input(&mut session, "nonexistent").is_err());
    assert_eq!(eval_input(&mut session, "%").unwrap(), "Int(42)");
}

#[test]
fn test_session_parse_error() {
    let mut session = new_session();
    assert!(eval_input(&mut session, "[unterminated").is_err());
    assert!(session.eval_input("[unterminated", no_evaluation()).is_err());
}

#[test]
fn test_session_non_dict_does_not_extend_env() {
    let mut session = new_session();
    eval_input(&mut session, "42").unwrap();
    assert!(eval_input(&mut session, "x").is_err());
}

#[test]
fn test_session_cumulative_dict_bindings() {
    let mut session = new_session();
    eval_input(&mut session, "[x: 1]").unwrap();
    eval_input(&mut session, "[y: 2]").unwrap();
    assert_eq!(eval_input(&mut session, "[+ x y]").unwrap(), "Int(3)");
}

#[test]
fn test_session_percent_updates_after_each_eval() {
    let mut session = new_session();
    eval_input(&mut session, "1").unwrap();
    assert_eq!(eval_input(&mut session, "%").unwrap(), "Int(1)");
    assert_eq!(eval_input(&mut session, "[+ % 10]").unwrap(), "Int(11)");
    assert_eq!(eval_input(&mut session, "%").unwrap(), "Int(11)");
}

#[test]
fn test_session_nested_dict() {
    let mut session = new_session();
    assert_eq!(
        eval_input(&mut session, "[a: [b: [c: 42]]]").unwrap(),
        "Dict({\"a\": Dict({\"b\": Dict({\"c\": Int(42)})})})"
    );
}

#[test]
fn test_session_arithmetic_chain() {
    let mut session = new_session();
    assert_eq!(eval_input(&mut session, "[* [+ 2 3] 4]").unwrap(), "Int(20)");
}

#[test]
fn test_session_input_size_limit() {
    let mut session = new_session();
    let oversized = "x".repeat(MAX_FILE_SIZE as usize + 1);
    let err = session.eval_input(&oversized, no_evaluation()).unwrap_err();
    assert!(err.contains("10 MB limit"), "expected size limit error, got: {err}");
    assert_eq!(err, "input exceeds the 10 MB limit (10485760 bytes)");
}

#[test]
fn test_session_whitespace_only_input() {
    let mut session = new_session();
    assert_eq!(eval_input(&mut session, "   ").unwrap(), "Dict({})");
    assert_eq!(eval_input(&mut session, "\n\n").unwrap(), "Dict({})");
}

#[test]
fn test_session_syntax_error_does_not_kill_session() {
    let mut session = new_session();
    eval_input(&mut session, "[x: 100]").unwrap();
    let err = eval_input(&mut session, "[broken syntax !!!@#$");
    drop(err);
    assert_eq!(eval_input(&mut session, "x").unwrap(), "Int(100)");
}

#[test]
fn test_meta_command_handle_help() {
    let session = new_session();
    let (goes_on, reply) = session.handle_meta_command(":help");
    assert!(goes_on);
    assert_eq!(reply.err.len(), 0);
    assert_eq!(reply.out.last().map(String::as_str), Some("  :help             Show this help message"));
}

#[test]
fn test_meta_command_handle_unknown() {
    let session = new_session();
    let (goes_on, reply) = session.handle_meta_command(":unknown");
    assert!(goes_on);
    assert_eq!(reply.out.len(), 0);
    assert_eq!(reply.err, vec!["Unknown command: :unknown", "Type :help for available commands."]);
}

#[test]
fn test_meta_command_type_without_arg() {
    let session = new_session();
    let (goes_on, reply) = session.handle_meta_command(":type");
    assert!(goes_on);
    assert_eq!(reply.err, vec!["usage: :type <name>"]);
}

#[test]
fn test_meta_command_describe_without_arg() {
    let session = new_session();
    let (goes_on, reply) = session.handle_meta_command(":describe");
    assert!(goes_on);
    assert_eq!(reply.err, vec!["usage: :describe <name>"]);
}

#[test]
fn session_without_library_or_directory() {
    let message = match ReplSession::new(Err("no prelude".to_string()), Ok(())) {
        Err(e) => e,
        Ok(_) => panic!("a session without its library"),
    };
    assert_eq!(message, "no prelude");
    let message = match ReplSession::with_env(
        Environment::new(),
        Ok(EvalContext::new()),
        Err("permission denied".to_string()),
    ) {
        Err(e) => e,
        Ok(_) => panic!("a session without its directory"),
    };
    assert_eq!(message, "cannot open current directory: permission denied");
    let message = match ReplSession::with_env(Environment::new(), Err("no arena".to_string()), Ok(())) {
        Err(e) => e,
        Ok(_) => panic!("a session without its arena"),
    };
    assert_eq!(message, "no arena");
}

#[test]
fn session_shows_the_place_of_an_error() {
    let mut session = new_session();
    let err = eval_input(&mut session, "[+ 1 nope]").unwrap_err();
    assert_eq!(err, "undefined variable\n1 | [+ 1 nope]\n  |      ^^^^\n");
}

#[test]
fn session_names_the_place_of_a_parse_error() {
    let mut session = new_session();
    let err = eval_input(&mut session, "1\n]").unwrap_err();
    assert_eq!(err, "2:1: unmatched closing bracket");
}

#[test]
fn session_tells_types_and_documentation() {
    let mut session = new_session();
    let id = session.ctx.alloc_thunk(Thunk { value: Value::Int(7), start: 4, end: 5 });
    let evaluation = Evaluation {
        types: vec![TypeEntry { start: 4, end: 5, ty: "Int".to_string() }],
        docs: vec![("x".to_string(), "A number.".to_string())],
        outcome: Ok(Evaluated {
            result: id,
            entries: Some(vec![(Key::Name("x".to_string()), id), (Key::Index(0), id)]),
            display: "shown".to_string(),
        }),
    };
    assert_eq!(session.eval_input("[x: 7]", evaluation), Ok("shown".to_string()));
    let (_, reply) = session.handle_meta_command(":type x");
    assert_eq!(reply.out, vec!["x : Int"]);
    let (_, reply) = session.handle_meta_command(":describe   x ");
    assert_eq!(reply.out, vec!["x : Int", "", "A number."]);
    let (_, reply) = session.handle_meta_command(":type y");
    assert_eq!(reply.out.len() + reply.err.len(), 1);
}

#[test]
fn recovered_errors_are_told() {
    let session = new_session();
    let output = session.read_input("[a: 1 a: 2]").unwrap();
    assert_eq!(recovered_lines(&output), vec!["parse error: 1:10: duplicate key \"a\""]);
}

#[test]
fn console_waits_for_the_closing_bracket() {
    let mut console = Console::new();
    assert_eq!(console.prompt(), "tinct> ");
    assert_eq!(console.handle(Event::Line("[x: 1".to_string())), Action::Read);
    assert_eq!(console.prompt(), "...> ");
    assert_eq!(console.handle(Event::Line("# ] is no bracket".to_string())), Action::Read);
    assert_eq!(
        console.handle(Event::Line("]".to_string())),
        Action::Evaluate("[x: 1\n# ] is no bracket\n]".to_string())
    );
    assert_eq!(console.prompt(), "tinct> ");
}

#[test]
fn console_tells_commands_from_inputs() {
    let mut console = Console::new();
    assert_eq!(
        console.handle(Event::Line("  :type x ".to_string())),
        Action::Command { line: ":type x".to_string(), entry: "  :type x ".to_string() }
    );
    assert_eq!(console.handle(Event::Line("\t\u{a0}".to_string())), Action::Read);
    assert_eq!(console.handle(Event::Line(" 1 ".to_string())), Action::Evaluate(" 1 ".to_string()));
}

#[test]
fn console_is_interrupted_and_ends() {
    let mut console = Console::new();
    assert_eq!(
        console.handle(Event::Interrupted),
        Action::Complain("(use Ctrl-D to exit)".to_string())
    );
    assert_eq!(console.handle(Event::Line("[".to_string())), Action::Read);
    assert_eq!(
        console.handle(Event::Interrupted),
        Action::Complain("^C (input cancelled)".to_string())
    );
    assert_eq!(console.prompt(), "tinct> ");
    assert_eq!(console.handle(Event::Eof), Action::Quit("Goodbye.".to_string()));
    assert_eq!(
        console.handle(Event::Failed("broken pipe".to_string())),
        Action::Quit("readline error: broken pipe".to_string())
    );
}

#[test]
fn console_refuses_long_inputs() {
    let mut console = Console::new();
    let half = "[".repeat(MAX_FILE_SIZE as usize / 2 + 1);
    assert_eq!(console.handle(Event::Line(half.clone())), Action::Read);
    assert_eq!(
        console.handle(Event::Line(half)),
        Action::Complain("error: input exceeds the 10 MB limit (10485760 bytes)".to_string())
    );
    assert_eq!(console.prompt(), "tinct> ");
}

#[test]
fn inner_scopes_hide_outer_ones() {
    let mut ctx = EvalContext::new();
    let a = ctx.alloc_value(Value::Int(1));
    let b = ctx.alloc_value(Value::Int(2));
    let mut env = Environment::new();
    env.insert("x".to_string(), a);
    assert!(env.get("x") == Some(a));
    env.insert("x".to_string(), b);
    assert!(env.get("x") == Some(b));
    assert!(env.get("y").is_none());
}
