//! The smaller seams: boundaries crossed by hand, and what a process does at a
//! boundary by the hook it has.

use deja_runtime::ambient::Ambient;
use deja_runtime::builder::{
    BoundarySpec, CallLocation, EventBuilder, FinishContext, RecordedOutput, Sequences,
    StartContext,
};
use deja_runtime::dispatch::{
    execute_shadow_observe_boundary, execute_shadow_peek_boundary, record_boundary_sync,
    record_boundary_sync_lazy, replay_boundary,
};
use deja_runtime::event::{
    serialized_result_is_error, BoundaryDeclaration, BoundarySemantics, CanonRef, CodecRef,
    EffectKind, ExecuteMode, OperationKind, ReplayStrategy,
};
use deja_runtime::graph::ExecutionGraphNode;
use deja_runtime::hook::{DisabledHook, RuntimeHook};
use deja_runtime::json::Json;
use deja_runtime::lineage::TaskLineage;
use deja_runtime::lookup_hook::{InMemoryObservedSink, LookupTable, LookupTableHook};
use deja_runtime::observed::is_zero_u64;
use deja_runtime::process::{boundary_execute_mode, replay_is_active};
use deja_runtime::recording::{events_in, RecordingHook};
use deja_runtime::replay_hook::ReplayHook;
use deja_runtime::report::ReplayConfig;
use deja_runtime::spans::CorrelationVisitor;

fn around(correlation_id: Option<&str>) -> Ambient {
    Ambient {
        correlation_id: correlation_id.map(str::to_owned),
        decision: None,
        lineage: None,
        span_path: None,
        tracing_span_id: None,
        graph_node_id: None,
        process_run_id: None,
        now_ns: 1_000,
    }
}

fn here() -> CallLocation {
    CallLocation { file: "tests/seams.rs", line: 7, column: 3 }
}

fn recorder() -> RecordingHook {
    RecordingHook::with_run_id("run-1".to_owned())
}

fn executed(boundary: &'static str) -> BoundarySpec {
    BoundarySpec::with_semantics(
        boundary,
        "T",
        "m",
        BoundarySemantics {
            replay_strategy: ReplayStrategy::Execute,
            kind: None,
            declaration: None,
        },
    )
}

fn empty_table() -> LookupTableHook {
    LookupTableHook::from_table(LookupTable::from_entries(Vec::new()))
}

#[test]
fn a_function_is_recorded_as_a_boundary() {
    let mut hook = recorder();
    let out = record_boundary_sync(
        &mut hook,
        here(),
        BoundarySpec::new("unit", "T", "double"),
        Some("req".to_owned()),
        &around(None),
        Json::from_u64(21),
        || 42u64,
        || around(None),
        |out: &u64| RecordedOutput::new(Json::from_u64(*out), false),
    );
    assert_eq!(out, 42);

    let events = events_in(hook.take_records());
    assert_eq!(events.len(), 1);
    assert_eq!(events[0].method_name, "double");
    assert_eq!(events[0].correlation_id.as_deref(), Some("req"));
    assert_eq!(events[0].args, Json::from_u64(21));
    assert_eq!(events[0].result, Json::from_u64(42));
    assert_eq!(events[0].call_line, 7);
}

#[test]
fn a_function_runs_without_its_arguments_where_nothing_records() {
    let mut hook = DisabledHook;
    let evaluated = std::cell::Cell::new(false);
    let out = record_boundary_sync_lazy(
        &mut hook,
        here(),
        BoundarySpec::new("unit", "T", "m"),
        None,
        &around(None),
        || {
            evaluated.set(true);
            Json::Null
        },
        || 7u64,
        || around(None),
        |out: &u64| RecordedOutput::new(Json::from_u64(*out), false),
    );
    assert_eq!(out, 7);
    assert!(!evaluated.get());
}

#[test]
fn a_replayed_boundary_gives_what_the_function_gave() {
    let mut hook = recorder();
    record_boundary_sync_lazy(
        &mut hook,
        here(),
        BoundarySpec::new("unit", "T", "m"),
        Some("req".to_owned()),
        &around(None),
        || Json::text("in"),
        || "out".to_owned(),
        || around(None),
        |out: &String| RecordedOutput::new(Json::text(out), false),
    );
    let mut replay = ReplayHook::new(events_in(hook.take_records()), ReplayConfig::default(), 0);
    let spec = BoundarySpec::new("unit", "T", "m");
    let ambient = around(Some("req"));
    let args = Json::text("in");
    assert_eq!(
        replay_boundary(&mut replay, here(), &spec, &args, None, &ambient),
        Some(Json::text("out")),
    );
    assert_eq!(replay_boundary(&mut replay, here(), &spec, &args, None, &ambient), None);
}

#[test]
fn a_disabled_hook_replays_and_peeks_at_nothing() {
    let mut hook = DisabledHook;
    let spec = executed("unit");
    let ambient = around(None);
    assert_eq!(replay_boundary(&mut hook, here(), &spec, &Json::Null, None, &ambient), None);
    assert!(
        execute_shadow_peek_boundary(&mut hook, here(), &spec, &Json::Null, None, &ambient)
            .is_none()
    );
}

#[test]
fn a_live_call_is_observed_with_what_it_gave() {
    let mut hook = empty_table();
    let token = execute_shadow_peek_boundary(
        &mut hook,
        here(),
        &executed("redis"),
        &Json::text("key"),
        None,
        &around(Some("req")),
    )
    .expect("a table hook always observes");
    execute_shadow_observe_boundary(&mut hook, token, Json::text("live"));

    let calls = hook.sink.drain();
    assert_eq!(calls.len(), 1);
    assert_eq!(calls[0].boundary, "redis");
    assert_eq!(calls[0].args, Json::text("key"));
    assert_eq!(calls[0].observed_result, Some(Json::text("live")));
    assert!(!calls[0].resolved);
    assert!(hook.sink.handle().is_empty());
}

#[test]
fn a_process_does_at_a_boundary_what_its_hook_says() {
    let ambient = around(None);
    let spec = executed("redis");

    let replaying = Some(RuntimeHook::LookupReplay(empty_table()));
    assert!(replay_is_active(&replaying, &ambient));
    assert_eq!(boundary_execute_mode(&replaying, &spec, &ambient), ExecuteMode::Execute);
    assert_eq!(
        boundary_execute_mode(&replaying, &BoundarySpec::new("redis", "T", "m"), &ambient),
        ExecuteMode::Lookup,
    );

    let recording = Some(RuntimeHook::Recording(recorder()));
    assert!(!replay_is_active(&recording, &ambient));
    assert_eq!(boundary_execute_mode(&recording, &spec, &ambient), ExecuteMode::Lookup);

    assert!(!replay_is_active(&None, &ambient));
    assert_eq!(boundary_execute_mode(&None, &spec, &ambient), ExecuteMode::Lookup);
}

#[test]
fn hooks_are_named_by_what_they_do() {
    assert_eq!(RuntimeHook::Recording(recorder()).variant_name(), "recording");
    assert_eq!(RuntimeHook::LookupReplay(empty_table()).variant_name(), "lookup_replay");
    assert_eq!(
        RuntimeHook::Replay(ReplayHook::new(Vec::new(), ReplayConfig::default(), 0)).variant_name(),
        "replay",
    );
    assert_eq!(RuntimeHook::Disabled(DisabledHook).variant_name(), "disabled");
}

#[test]
fn an_event_takes_its_own_correlation_over_the_one_around_it() {
    let start = |own: Option<&str>| {
        EventBuilder::start_with_correlation_id(
            Sequences { global: 4, request: 2 },
            StartContext {
                correlation_id: Some("around".to_owned()),
                graph_node_id: Some(9),
                tracing_span_id: None,
                start_ns: 5_000,
            },
            "unit",
            "T",
            "m",
            here(),
            own.map(str::to_owned),
            Json::Null,
        )
    };
    let finish = |builder: EventBuilder| {
        builder.finish(
            FinishContext {
                end_ns: 8_000,
                hook_run_id: Some("run-1".to_owned()),
                process_run_id: Some("run-2".to_owned()),
                lineage: TaskLineage::root(),
            },
            Json::Null,
            false,
        )
    };
    let own = finish(start(Some("own")));
    assert_eq!(own.correlation_id.as_deref(), Some("own"));
    assert_eq!((own.global_sequence, own.request_sequence), (4, 2));
    assert_eq!(own.graph_node_id, Some(9));
    assert_eq!(own.duration_us, 3);
    assert_eq!(own.recording_run_id.as_deref(), Some("run-1"));
    assert_eq!(finish(start(None)).correlation_id.as_deref(), Some("around"));
}

#[test]
fn a_recorded_output_names_each_key_once() {
    let output = RecordedOutput::new(Json::Null, false)
        .with_read_key("a")
        .with_read_key("a")
        .with_read_key("b")
        .with_write_key("c")
        .with_write_key("c");
    assert_eq!(output.read_set, vec!["a", "b"]);
    assert_eq!(output.write_set, vec!["c"]);
}

#[test]
fn declarations_carry_versions() {
    let declaration = BoundaryDeclaration::default()
        .operation(OperationKind::Read)
        .codec(CodecRef::versioned("json", 3))
        .state_canon(CanonRef::versioned("row", 2))
        .reply_canon(CanonRef::new("reply"));
    assert!(!declaration.is_empty());
    assert_eq!(declaration.codec.as_ref().map(|c| (c.id.as_str(), c.version)), Some(("json", Some(3))));
    assert_eq!(
        declaration.state_canon.as_ref().map(|c| (c.id.as_str(), c.version)),
        Some(("row", Some(2))),
    );

    let semantics = BoundarySemantics::undeclared()
        .with_declaration(BoundaryDeclaration::default().effect(EffectKind::Redis));
    assert_eq!(semantics.replay_strategy, ReplayStrategy::Substitute);
    assert_eq!(semantics.declaration.and_then(|d| d.effect), Some(EffectKind::Redis));
}

#[test]
fn only_an_object_with_an_error_is_one() {
    let failed = Json::Object(vec![("Err".to_owned(), Json::Null)]);
    assert!(serialized_result_is_error(&failed));
    assert!(!serialized_result_is_error(&Json::Object(vec![("Ok".to_owned(), Json::Null)])));
    assert!(!serialized_result_is_error(&Json::Array(vec![Json::text("Err")])));
    assert!(!serialized_result_is_error(&Json::text("Err")));
}

#[test]
fn a_zero_need_not_be_written() {
    assert!(is_zero_u64(&0));
    assert!(!is_zero_u64(&1));
}

#[test]
fn a_written_field_never_stands_over_a_text() {
    let mut visitor = CorrelationVisitor { found: None };
    visitor.record_debug("other", "no".to_owned());
    assert_eq!(visitor.found, None);
    visitor.record_debug("request_id", "written".to_owned());
    assert_eq!(visitor.found.as_deref(), Some("written"));
    visitor.record_str("request_id", "text");
    visitor.record_debug("request_id", "late".to_owned());
    assert_eq!(visitor.found.as_deref(), Some("text"));
}

#[test]
fn a_sink_keeps_calls_and_nodes_apart() {
    let mut sink = InMemoryObservedSink::new();
    sink.graph_node(ExecutionGraphNode {
        node_id: 1,
        global_sequence: 0,
        parent_id: None,
        causal_parent_ids: Vec::new(),
        sequence: 0,
        recording_run_id: None,
        span_name: "span".to_owned(),
        target: "t".to_owned(),
        level: "INFO".to_owned(),
        fields: Json::Object(Vec::new()),
        started_ns: 1,
        closed_ns: None,
    });
    assert_eq!(sink.graph_nodes().len(), 1);
    assert!(sink.drain().is_empty());
    assert_eq!(sink.graph_nodes()[0].span_name, "span");
}

#[test]
fn an_event_is_finished_by_what_surrounds_the_call_once_it_is_made() {
    let task = |task: &str, fork_seq: u64| TaskLineage {
        task_id: task.to_owned(),
        parent_task_id: None,
        bucket_id: task.to_owned(),
        fork_seq,
    };
    let mut before = around(Some("req"));
    before.lineage = Some(task("before", 1));
    let mut hook = recorder();
    record_boundary_sync(
        &mut hook,
        here(),
        BoundarySpec::new("unit", "T", "m"),
        None,
        &before,
        Json::Null,
        || (),
        || {
            let mut left = around(Some("other"));
            left.lineage = Some(task("left", 2));
            left
        },
        |_: &()| RecordedOutput::new(Json::Null, false),
    );
    let events = events_in(hook.take_records());
    assert_eq!(events[0].correlation_id.as_deref(), Some("req"));
    assert_eq!(events[0].task_id.as_deref(), Some("left"));
    assert_eq!(events[0].bucket_id.as_deref(), Some("left"));
    assert_eq!(events[0].fork_seq, Some(2));
}
