use tinct::profiling::{ProfilingCollector, SpanRecord};
use tinct::thunk::{EvalContext, ThunkId, Value};

fn entry(ctx: &EvalContext, id: ThunkId, key: &str) -> ThunkId {
    match &ctx.get_thunk(id).expect("in the arena").value {
        Value::Dict(d) => *d.get(key).expect("has the key"),
        other => panic!("expected a dict, got {other:?}"),
    }
}

#[test]
fn test_span_record_roundtrip() {
    let mut collector = ProfilingCollector::new();

    let id = collector.open_span(
        Some("test.llt".to_string()),
        Some((10, 5)),
        Some((10, 20)),
        Some("[+ 1 2]".to_string()),
        None,
        None,
        None,
        0,
    );

    collector.close_span(id);

    let mut ctx = EvalContext::new();
    let value = collector.into_value(&mut ctx);
    match value {
        Value::Variant { ref tag, payload: Some(payload_id) } if tag == "Seq.Cons" => {
            let head_id = entry(&ctx, payload_id, "head");
            match &ctx.get_thunk(head_id).expect("in the arena").value {
                Value::Dict(entries) => {
                    assert!(entries.contains_key("id"));
                    assert!(entries.contains_key("materialize-parent"));
                    assert!(entries.contains_key("create-parent"));
                    assert!(entries.contains_key("source-file"));
                    assert!(entries.contains_key("start-us"));
                    assert!(entries.contains_key("end-us"));
                }
                _ => panic!("Expected dict as head of Seq"),
            }
        }
        _ => panic!("Expected Seq.Cons for non-empty span list"),
    }
}

#[test]
fn test_open_close_span() {
    let mut collector = ProfilingCollector::new();

    let parent_id = collector.open_span(
        Some("parent.llt".to_string()),
        Some((1, 1)),
        Some((1, 10)),
        None,
        None,
        None,
        None,
        0,
    );

    let child_id = collector.open_span(
        Some("child.llt".to_string()),
        Some((2, 1)),
        Some((2, 10)),
        None,
        None,
        None,
        Some(parent_id),
        100,
    );

    collector.close_span(child_id);

    let child_span = collector.snapshot().into_iter().find(|s| s.id == child_id).unwrap();
    assert_eq!(child_span.materialize_parent, Some(parent_id));
    assert_eq!(child_span.create_parent, Some(parent_id));

    collector.close_span(parent_id);

    let parent_span = collector.snapshot().into_iter().find(|s| s.id == parent_id).unwrap();
    assert_eq!(parent_span.materialize_parent, None);
}

#[test]
fn test_stall_recording() {
    let mut collector = ProfilingCollector::new();

    let id = collector.open_span(
        Some("io.llt".to_string()),
        Some((5, 1)),
        Some((5, 20)),
        None,
        None,
        None,
        None,
        0,
    );

    collector.record_stall(1000, "io");
    collector.record_stall(500, "net");

    collector.close_span(id);

    let span = collector.snapshot().into_iter().find(|s| s.id == id).unwrap();
    assert_eq!(span.stall_us, 1500);
    assert_eq!(span.stall_kind.as_deref(), Some("io"));
}

#[test]
fn test_to_tinct_line() {
    let span = SpanRecord {
        id: 42,
        materialize_parent: Some(10),
        create_parent: Some(5),
        create_time_us: 1000,
        source_file: Some("test.llt".to_string()),
        source_start: Some((10, 5)),
        source_end: Some((10, 20)),
        source_text: Some("[+ 1 2]".to_string()),
        builtin_name: None,
        origin_builtin: None,
        start_us: 2000,
        end_us: 3000,
        stall_us: 100,
        stall_kind: Some("io".to_string()),
    };

    let line = span.to_tinct_line();

    assert!(line.starts_with("[id: 42"));
    assert!(line.contains("materialize-parent: 10"));
    assert!(line.contains("create-parent: 5"));
    assert!(line.contains("source-file: \"test.llt\""));
    assert!(line.contains("source-text: \"[+ 1 2]\""));
    assert!(line.contains("stall-kind: \"io\""));
    assert!(line.ends_with("]"));
}

#[test]
fn test_to_tinct_line_with_empty_fields() {
    let span = SpanRecord {
        id: 1,
        materialize_parent: None,
        create_parent: None,
        create_time_us: 0,
        source_file: None,
        source_start: None,
        source_end: None,
        source_text: None,
        builtin_name: Some("builtin-map".to_string()),
        origin_builtin: None,
        start_us: 0,
        end_us: 100,
        stall_us: 0,
        stall_kind: None,
    };

    let line = span.to_tinct_line();

    assert!(line.contains("materialize-parent: []"));
    assert!(line.contains("create-parent: []"));
    assert!(line.contains("source-file: []"));
    assert!(line.contains("source-text: []"));
    assert!(line.contains("builtin: \"builtin-map\""));
    assert!(line.contains("origin-builtin: []"));
    assert!(line.contains("stall-kind: []"));
}
