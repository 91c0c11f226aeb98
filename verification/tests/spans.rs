use std::sync::Arc;
use tinct::ast::{SurfaceExpression, SurfaceItem, SurfaceNode};
use tinct::brackets::{bracket_count, is_balanced};
use tinct::parser::parse;
use tinct::profiling::{format_tinct_string, ProfilingCollector, SpanRecord};
use tinct::thunk::{EvalContext, ThunkId, Value};

fn record(id: u64) -> SpanRecord {
    SpanRecord {
        id,
        materialize_parent: None,
        create_parent: Some(3),
        create_time_us: 4,
        source_file: Some("a\"b\n".to_string()),
        source_start: Some((2, 5)),
        source_end: None,
        source_text: None,
        builtin_name: Some("map".to_string()),
        origin_builtin: None,
        start_us: 10,
        end_us: u64::MAX,
        stall_us: 0,
        stall_kind: None,
    }
}

fn open(c: &mut ProfilingCollector, at: u64) -> u64 {
    c.open_span_at(None, None, None, None, None, None, None, 0, at)
}

fn value(ctx: &EvalContext, id: ThunkId) -> &Value {
    &ctx.get_thunk(id).expect("in the arena").value
}

#[test]
fn texts_as_string_literals() {
    assert_eq!(format_tinct_string(""), "\"\"");
    assert_eq!(format_tinct_string("a\"\\\n\r\t\u{1}\u{e4}"), "\"a\\\"\\\\\\n\\r\\t\u{fffd}\u{e4}\"");
}

#[test]
fn a_record_is_written_on_one_line() {
    assert_eq!(
        record(7).to_tinct_line(),
        "[id: 7  materialize-parent: []  create-parent: 3  create-time-us: 4  source-file: \"a\\\"b\\n\"  source-start: 2000005  source-end: []  source-text: []  builtin: \"map\"  origin-builtin: []  start-us: 10  end-us: 18446744073709551615  stall-us: 0  stall-kind: []]"
    );
}

fn shown(node: &SurfaceNode) -> String {
    match &node.expr {
        SurfaceExpression::Int(n) => format!("int {}", n),
        SurfaceExpression::U64(n) => format!("u64 {}", n),
        SurfaceExpression::StringLiteral { prefix, delimiter, content } => {
            assert_eq!((prefix.as_str(), delimiter.as_str()), ("", "\""));
            format!("str {}", content)
        }
        SurfaceExpression::Dict(entries) if entries.is_empty() => "empty".to_string(),
        other => panic!("{:?}", other),
    }
}

#[test]
fn the_line_of_a_record_parses() {
    let line = record(7).to_tinct_line();
    let output = parse(&line, Arc::new("a.llt".to_string())).expect("a source");
    assert!(output.diagnostics.is_empty());
    assert_eq!(output.program.documents.len(), 1);
    assert_eq!(output.program.documents[0].node.items.len(), 1);
    let entries = match &output.program.documents[0].node.items[0] {
        SurfaceItem::Expr(node) => match &node.expr {
            SurfaceExpression::Dict(entries) => entries,
            other => panic!("{:?}", other),
        },
        other => panic!("{:?}", other),
    };
    let fields: Vec<(String, String)> = entries
        .iter()
        .map(|e| (shown(e.node.key.as_ref().expect("a key")), shown(&e.node.value)))
        .collect();
    let expected = [
        ("id", "int 7"),
        ("materialize-parent", "empty"),
        ("create-parent", "int 3"),
        ("create-time-us", "int 4"),
        ("source-file", "str a\\\"b\\n"),
        ("source-start", "int 2000005"),
        ("source-end", "empty"),
        ("source-text", "empty"),
        ("builtin", "str map"),
        ("origin-builtin", "empty"),
        ("start-us", "int 10"),
        ("end-us", "u64 18446744073709551615"),
        ("stall-us", "int 0"),
        ("stall-kind", "empty"),
    ];
    assert_eq!(fields.len(), expected.len());
    for ((key, value), (k, v)) in fields.iter().zip(expected) {
        assert_eq!((key.as_str(), value.as_str()), (format!("str {}", k).as_str(), v));
    }
}

#[test]
fn a_line_holds_no_control_character() {
    let mut r = record(1);
    r.source_text = Some((0u8..=0x20).map(|b| b as char).collect());
    assert!(r.to_tinct_line().chars().all(|c| c >= ' '));
    assert!(parse(&r.to_tinct_line(), Arc::new("a.llt".to_string())).expect("a source").diagnostics.is_empty());
}

#[test]
fn a_record_as_a_dict() {
    let mut ctx = EvalContext::new();
    let v = record(7).to_value(&mut ctx);
    let dict = match v {
        Value::Dict(d) => d,
        _ => panic!("not a dict"),
    };
    let keys: Vec<&str> = dict.keys().map(|k| k.as_str()).collect();
    assert_eq!(
        keys,
        vec![
            "id", "materialize-parent", "create-parent", "create-time-us", "source-file",
            "source-start", "source-end", "source-text", "builtin", "origin-builtin", "start-us",
            "end-us", "stall-us", "stall-kind",
        ]
    );
    assert!(matches!(value(&ctx, dict["id"]), Value::Int(7)));
    assert!(matches!(value(&ctx, dict["create-parent"]), Value::Int(3)));
    assert!(matches!(value(&ctx, dict["source-start"]), Value::Int(2000005)));
    assert!(matches!(value(&ctx, dict["source-end"]), Value::Dict(d) if d.is_empty()));
    assert!(matches!(value(&ctx, dict["end-us"]), Value::Int(-1)));
    assert!(matches!(value(&ctx, dict["source-file"]), Value::Str(s) if s == "a\"b\n"));
    assert!(matches!(value(&ctx, dict["stall-kind"]), Value::Dict(d) if d.is_empty()));
}

#[test]
fn records_as_a_sequence() {
    let mut ctx = EvalContext::new();
    let mut rest = ProfilingCollector::spans_to_value(vec![record(1), record(2)], &mut ctx);
    for n in [1, 2] {
        let (tag, payload) = match rest {
            Value::Variant { tag, payload: Some(p) } => (tag, p),
            _ => panic!("too short"),
        };
        assert_eq!(tag, "Seq.Cons");
        let (head, tail) = match value(&ctx, payload) {
            Value::Dict(d) => (d["head"], d["tail"]),
            _ => panic!("no payload"),
        };
        match value(&ctx, head) {
            Value::Dict(d) => assert!(matches!(value(&ctx, d["id"]), Value::Int(k) if *k == n)),
            _ => panic!("no dict"),
        }
        rest = match value(&ctx, tail) {
            Value::Variant { tag, payload } => {
                Value::Variant { tag: tag.clone(), payload: *payload }
            }
            _ => panic!("no tail"),
        };
    }
    assert!(matches!(rest, Value::Variant { tag, payload: None } if tag == "Seq.Nil"));
}

#[test]
fn spans_nest() {
    let mut c = ProfilingCollector::default();
    assert_eq!(c.current_span_id(), None);
    let outer = open(&mut c, 5);
    let inner = open(&mut c, 6);
    assert_eq!((outer, inner), (0, 1));
    assert_eq!(c.current_span_id(), Some(inner));
    c.record_stall(3, "io");
    c.close_span_at(inner, 9);
    assert_eq!(c.current_span_id(), Some(outer));
    c.record_stall(4, "net");
    c.record_stall(5, "io");
    c.close_span_at(outer, 12);
    assert_eq!(c.current_span_id(), None);
    c.record_stall(100, "lost");
    let spans = c.snapshot();
    assert_eq!(spans.len(), 2);
    assert_eq!((spans[0].start_us, spans[0].end_us), (5, 12));
    assert_eq!((spans[1].start_us, spans[1].end_us), (6, 9));
    assert_eq!(spans[0].materialize_parent, None);
    assert_eq!(spans[1].materialize_parent, Some(0));
    assert_eq!((spans[0].stall_us, spans[0].stall_kind.as_deref()), (9, Some("net")));
    assert_eq!((spans[1].stall_us, spans[1].stall_kind.as_deref()), (3, Some("io")));
}

#[test]
fn spans_are_handed_out_once() {
    let mut c = ProfilingCollector::new();
    assert_eq!(c.drain_new().len(), 0);
    open(&mut c, 1);
    open(&mut c, 2);
    let new: Vec<u64> = c.drain_new().iter().map(|s| s.id).collect();
    assert_eq!(new, vec![0, 1]);
    assert_eq!(c.drain_new().len(), 0);
    open(&mut c, 3);
    let new: Vec<u64> = c.drain_new().iter().map(|s| s.id).collect();
    assert_eq!(new, vec![2]);
    assert_eq!(c.extract_spans().len(), 3);
    assert_eq!(c.snapshot().len(), 0);
    assert_eq!(c.drain_new().len(), 0);
    assert_eq!(open(&mut c, 4), 3);
    let new: Vec<u64> = c.drain_new().iter().map(|s| s.id).collect();
    assert_eq!(new, vec![3]);
}

#[test]
fn times_are_measured_from_the_baseline() {
    let mut c = ProfilingCollector::new();
    let id = c.open_span(None, None, None, None, None, None, None, 0);
    while c.baseline_instant().elapsed().as_micros() < 2000 {}
    c.close_span(id);
    let span = &c.snapshot()[0];
    assert!(span.end_us >= 2000);
    assert!(span.start_us <= span.end_us);
}

#[test]
fn depths_of_lines_add_up() {
    let lines = ["[fn [let x]", "  \"]\" # ]", "  [+ x 1]]"];
    assert_eq!(lines.iter().map(|l| bracket_count(l)).sum::<i32>(), 0);
    assert!(is_balanced(&lines));
    assert!(!is_balanced(&lines[..2]));
}

#[test]
fn identities_count_up_without_gaps() {
    let mut c = ProfilingCollector::new();
    assert_eq!(open(&mut c, 1), 0);
    assert_eq!(open(&mut c, 2), 1);
    c.close_span_at(1, 3);
    c.record_stall(1, "io");
    c.drain_new();
    assert_eq!(open(&mut c, 4), 2);
    c.extract_spans();
    c.close_span_at(2, 5);
    assert_eq!(open(&mut c, 6), 3);
    assert_eq!(c.current_span_id(), Some(3));
}

#[test]
fn closing_restores_what_was_open_before() {
    let mut c = ProfilingCollector::new();
    let a = open(&mut c, 1);
    let b = open(&mut c, 2);
    let inner = open(&mut c, 3);
    c.close_span_at(inner, 4);
    c.drain_new();
    let other = open(&mut c, 5);
    c.close_span_at(other, 6);
    assert_eq!(c.current_span_id(), Some(b));
    let mut expected = c.snapshot();
    c.close_span_at(b, 7);
    assert_eq!(c.current_span_id(), Some(a));
    expected[1].end_us = 7;
    assert_eq!(c.snapshot(), expected);
}

#[test]
fn a_span_that_was_taken_out_can_be_closed() {
    let mut c = ProfilingCollector::new();
    let a = open(&mut c, 1);
    let b = open(&mut c, 2);
    assert_eq!(c.extract_spans().len(), 2);
    c.close_span_at(b, 3);
    assert_eq!(c.current_span_id(), Some(a));
    assert_eq!(c.snapshot(), Vec::new());
}

#[test]
fn all_drains_together_hand_out_every_span() {
    let mut c = ProfilingCollector::new();
    let mut ids: Vec<u64> = Vec::new();
    for n in 0..4u64 {
        for _ in 0..n {
            open(&mut c, n);
        }
        let before = c.snapshot();
        ids.extend(c.drain_new().iter().map(|s| s.id));
        assert_eq!(c.snapshot(), before);
        assert_eq!(c.drain_new().len(), 0);
    }
    assert_eq!(ids, vec![0, 1, 2, 3, 4, 5]);
}
