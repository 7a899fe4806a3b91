//! Events, recording, and crossing a boundary through a hook.

use deja_runtime::ambient::{Ambient, RecordDecision, ReplayLookup};
use deja_runtime::args_hash::value_digest_of;
use deja_runtime::builder::{BoundarySpec, CallLocation, EventBuilder, RecordedOutput, StateCapture};
use deja_runtime::crossing::FailStop;
use deja_runtime::dispatch::{
    dispatch, dispatch_with_hook, finish_event, record_semantic_event_with_hook,
    start_boundary_event_lazy_with_hook, start_event, CrossingObservation, DelegateObservation,
    EventStart, Reconstructed,
};
use deja_runtime::event::{
    BoundaryDeclaration, BoundaryEvent, BoundarySemantics, CallsiteIdentity, CallsiteSource,
    EffectKind, Fidelity, Provenance, ReplayStrategy, RuntimeMode, CURRENT_EVENT_SCHEMA_VERSION,
};
use deja_runtime::fnv::FNV_OFFSET_BASIS;
use deja_runtime::hook::{DejaHook, DisabledHook};
use deja_runtime::json::Json;
use deja_runtime::lineage::ROOT_TASK_ID;
use deja_runtime::metrics::compute_metrics;
use deja_runtime::observed::{ExecuteShadowToken, ObservedCall};
use deja_runtime::recording::{de_u64_opt_lenient, events_in, now_ns, RecordingHook};
use deja_runtime::replay_index::{ReplayConfidence, ReplayIndex, ReplayQuery};
use deja_runtime::state_key::StateKey;

fn json(text: &str) -> Json {
    let value: serde_json::Value = serde_json::from_str(text).expect("a JSON text");
    json_of(&value)
}

fn json_of(value: &serde_json::Value) -> Json {
    match value {
        serde_json::Value::Null => Json::Null,
        serde_json::Value::Bool(b) => Json::Bool(*b),
        serde_json::Value::Number(n) => Json::Number(n.to_string()),
        serde_json::Value::String(s) => Json::String(s.clone()),
        serde_json::Value::Array(items) => Json::Array(items.iter().map(json_of).collect()),
        serde_json::Value::Object(members) => Json::Object(
            members.iter().map(|(name, member)| (name.clone(), json_of(member))).collect(),
        ),
    }
}

fn around(correlation_id: Option<&str>) -> Ambient {
    Ambient {
        correlation_id: correlation_id.map(str::to_owned),
        decision: None,
        lineage: None,
        span_path: None,
        tracing_span_id: None,
        graph_node_id: None,
        process_run_id: None,
        now_ns: 1_000,
    }
}

fn here() -> CallLocation {
    CallLocation { file: "tests/runtime.rs", line: 1, column: 1 }
}

fn recorder() -> RecordingHook {
    RecordingHook::with_run_id("run-1".to_owned())
}

fn started(
    hook: &mut RecordingHook,
    boundary: &'static str,
    component: &'static str,
    method: &'static str,
    args: Json,
) -> EventBuilder {
    start_event(
        hook,
        EventStart {
            spec: BoundarySpec::new(boundary, component, method),
            caller: here(),
            receiver: None,
            correlation_id: None,
            args,
            identity: None,
            state_capture: None,
        },
        &around(None),
    )
}

fn finished(hook: &mut RecordingHook, builder: EventBuilder, result: Json) {
    finish_event(hook, builder, RecordedOutput::new(result, false), &around(None), 2_000);
}

#[test]
fn boundary_spec_new_defaults_and_with_semantics_carries() {
    let plain = BoundarySpec::new("redis", "T", "get");
    assert_eq!(plain.semantics().kind, None);
    assert_eq!(plain.replay_strategy, ReplayStrategy::Substitute);

    let declared = BoundarySpec::with_semantics(
        "redis",
        "T",
        "get_key",
        BoundarySemantics {
            replay_strategy: ReplayStrategy::Execute,
            kind: Some("redis".to_string()),
            declaration: Some(BoundaryDeclaration::default().effect(EffectKind::Redis)),
        },
    );
    let s = declared.semantics();
    assert_eq!(s.kind.as_deref(), Some("redis"));
    assert_eq!(s.replay_strategy, ReplayStrategy::Execute);
    assert_eq!(s.declaration.as_ref().and_then(|d| d.effect), Some(EffectKind::Redis));
}

#[test]
fn now_ns_returns_reasonable_value() {
    let ts = now_ns();
    // After the first of January 2024.
    assert!(ts > 1_704_067_200_000_000_000);
}

#[test]
fn recording_hook_sequences_atomically() {
    let mut hook = recorder();

    assert_eq!(hook.next_global_sequence(), 0);
    assert_eq!(hook.next_global_sequence(), 1);
    assert_eq!(hook.next_global_sequence(), 2);

    assert_eq!(hook.next_request_sequence(Some("req-1")), 0);
    assert_eq!(hook.next_request_sequence(Some("req-1")), 1);
    assert_eq!(hook.next_request_sequence(Some("req-2")), 0);
    assert_eq!(hook.next_request_sequence(Some("req-1")), 2);
}

#[test]
fn recording_hook_mode_obeys_scoped_false_decision() {
    let hook = recorder();
    let mut ambient = around(Some("req-recording-hook-mode-off"));
    assert_eq!(hook.mode(&ambient), RuntimeMode::Record);
    ambient.decision = Some(RecordDecision::Skip);
    assert_eq!(hook.mode(&ambient), RuntimeMode::Disabled);
}

#[test]
fn manual_record_helpers_skip_allocation_when_sampled_out() {
    let mut hook = recorder();
    let correlation_id = "req-boundary-helper-sampled-out";
    let mut ambient = around(Some(correlation_id));
    ambient.decision = Some(RecordDecision::Skip);

    let args_evaluated = std::cell::Cell::new(false);
    let event = start_boundary_event_lazy_with_hook(
        &mut hook,
        here(),
        BoundarySpec::new("unit", "T", "m"),
        Some(correlation_id.to_string()),
        || {
            args_evaluated.set(true);
            json(r#"{"unexpected": true}"#)
        },
        None,
        None,
        &ambient,
    );

    assert!(event.is_none());
    assert!(!args_evaluated.get());
    assert_eq!(hook.mode(&ambient), RuntimeMode::Disabled);
    record_semantic_event_with_hook(
        &mut hook,
        BoundarySpec::new("manual", "T", "record"),
        json(r#"{"request": true}"#),
        json(r#"{"response": true}"#),
        false,
        here(),
        &ambient,
    );

    assert_eq!(hook.next_global_sequence(), 0);
    assert_eq!(hook.next_request_sequence(Some(correlation_id)), 0);
    assert!(hook.take_records().is_empty());
}

#[test]
fn event_builder_roundtrip() {
    let mut hook = recorder();
    for _ in 0..2 {
        let builder = started(
            &mut hook,
            "storage",
            "AddressInterface",
            "find_address_by_address_id",
            json(r#"{"address_id": "addr_123"}"#),
        );
        finished(&mut hook, builder, json(r#"{"id": "addr_123", "city": "Mumbai"}"#));
    }

    let events = events_in(hook.take_records());
    assert_eq!(events.len(), 2);
    assert_eq!(events[0].global_sequence, 0);
    assert_eq!(events[1].global_sequence, 1);
    assert_eq!(events[0].trait_name, "AddressInterface");
    assert_eq!(events[0].method_name, "find_address_by_address_id");
    assert_eq!(events[0].boundary, "storage");
    assert!(!events[0].is_error);
    assert!(events[0].call_file.contains("runtime.rs"));
}

#[test]
fn finish_prefers_explicit_builder_captures_without_db_inference() {
    let mut hook = recorder();
    let explicit_args = json(
        r#"{
            "operation": "generic_find_one_core",
            "table": "users",
            "sql": "SELECT * FROM \"users\" WHERE \"user_id\" = $1",
            "inputs": ["inferred_user"]
        }"#,
    );
    let explicit_output = json(
        r#"{
            "version": 1,
            "result": "Ok",
            "value": {"user_id": "inferred_user", "merchant_id": "merch_ignored"},
            "type_name": "User"
        }"#,
    );
    let explicit_read = user_row("explicit_read_user");
    let explicit_write = user_row("explicit_write_user");
    let result_image = json(r#"{"image": "post"}"#);
    let pre_image = json(r#"{"image": "pre"}"#);

    let builder = started(
        &mut hook,
        "db",
        "Execute",
        "generic_find_one_core",
        json(r#"{"unused": true}"#),
    )
    .record_call_to(explicit_args.clone())
    .with_read_set(vec![explicit_read.clone()])
    .with_write_set(vec![explicit_write.clone()])
    .with_output(explicit_output.clone())
    .with_result_image(result_image.clone())
    .with_pre_image(pre_image.clone());
    finished(&mut hook, builder, json(r#"{"value": "ignored"}"#));

    let events = events_in(hook.take_records());
    assert_eq!(events.len(), 1);
    let event = &events[0];
    assert_eq!(event.request, explicit_args);
    assert_eq!(event.args, explicit_args);
    assert_eq!(event.response, explicit_output);
    assert_eq!(event.result, explicit_output);
    assert_eq!(event.read_set, vec![explicit_read]);
    assert_eq!(event.write_set, vec![explicit_write]);
    assert_eq!(event.result_image, Some(result_image));
    assert_eq!(event.pre_image, Some(pre_image));
    assert_eq!(event.value_digest, Some(value_digest_of(&event.args, &event.result)));
}

fn user_row(user: &str) -> String {
    StateKey::DbRow {
        table: "users".to_owned(),
        pk_column: "user_id".to_owned(),
        pk_value: user.to_owned(),
    }
    .to_wire()
}

#[test]
fn state_single_key_helpers_set_only_the_requested_side() {
    fn record_with(
        boundary: &'static str,
        method: &'static str,
        builder: impl FnOnce(EventBuilder) -> EventBuilder,
    ) -> BoundaryEvent {
        let mut hook = recorder();
        let event = started(&mut hook, boundary, "State", method, json(r#"["unused-call-key"]"#));
        finished(&mut hook, builder(event), Json::text("result"));
        events_in(hook.take_records()).into_iter().next().expect("event")
    }

    let read = record_with("db", "select_one", |event| event.state_read_to("explicit-read"));
    assert_eq!(read.read_set, vec!["explicit-read"]);
    assert!(read.write_set.is_empty());

    let write = record_with("redis", "get_key", |event| event.state_write_to("explicit-write"));
    assert!(write.read_set.is_empty());
    assert_eq!(write.write_set, vec!["explicit-write"]);
}

#[test]
fn crossing_observation_state_capture_is_authoritative() {
    let mut hook = recorder();
    let obs = CrossingObservation::new(
        BoundarySpec::new("redis", "Redis", "get_key"),
        test_identity(),
        here(),
    )
    .state_write_to("explicit-write");

    let builder = started(
        &mut hook,
        obs.spec.boundary,
        obs.spec.trait_name,
        obs.spec.method_name,
        json(r#"["unused-read-key"]"#),
    );
    let builder = obs.state_capture.expect("observation state capture").apply_to(builder);
    finished(&mut hook, builder, Json::text("result"));

    let event = events_in(hook.take_records()).into_iter().next().expect("event");
    assert!(event.read_set.is_empty());
    assert_eq!(event.write_set, vec!["explicit-write"]);
}

#[test]
fn finish_stamps_empty_sets_and_the_replay_knob_without_explicit_capture() {
    fn record_one(
        boundary: &'static str,
        method: &'static str,
        args: Json,
        semantics: Option<BoundarySemantics>,
    ) -> BoundaryEvent {
        let mut hook = recorder();
        let mut b = started(&mut hook, boundary, "T", method, args);
        if let Some(s) = semantics {
            b = b.with_semantics(s);
        }
        finished(&mut hook, b, Json::text("0.10"));
        let events = events_in(hook.take_records());
        assert_eq!(events.len(), 1);
        events.into_iter().next().unwrap()
    }

    let declared = record_one(
        "redis",
        "get_key",
        json(r#"["settlement_rate_default"]"#),
        Some(BoundarySemantics {
            replay_strategy: ReplayStrategy::Execute,
            kind: Some("redis".to_string()),
            declaration: Some(BoundaryDeclaration::default().effect(EffectKind::Redis)),
        }),
    );
    assert_eq!(declared.replay_strategy, ReplayStrategy::Execute);
    assert_eq!(declared.kind.as_deref(), Some("redis"));
    assert_eq!(declared.declaration.as_ref().and_then(|d| d.effect), Some(EffectKind::Redis));
    assert!(declared.read_set.is_empty());
    assert!(declared.write_set.is_empty());

    let undeclared = record_one("db", "select_one", json(r#"{"operation": "select_one"}"#), None);
    assert_eq!(undeclared.replay_strategy, ReplayStrategy::Substitute);
    assert_eq!(undeclared.kind, None);
    assert!(undeclared.read_set.is_empty());
    assert!(undeclared.write_set.is_empty());

    let id_ev = record_one("id", "nonce", json("[]"), None);
    assert_eq!(id_ev.entropy_source.as_deref(), Some("id"));
    assert!(id_ev.read_set.is_empty() && id_ev.write_set.is_empty());

    let clock_ev = record_one("time", "now", json("[]"), None);
    assert_eq!(clock_ev.entropy_source.as_deref(), Some("time"));
    assert!(clock_ev.read_set.is_empty() && clock_ev.write_set.is_empty());
}

#[test]
fn value_digest_is_stable_and_folds_in_the_result() {
    let args = json(r#"["settlement_rate_premium"]"#);
    let r1 = Json::text("0.10");
    let r2 = Json::text("0.20");
    assert_eq!(value_digest_of(&args, &r1), value_digest_of(&args, &r1));
    assert_ne!(value_digest_of(&args, &r1), value_digest_of(&args, &r2));
}

#[test]
fn value_digest_parses_from_vector_stringified_u64() {
    let big = 15_482_056_560_522_895_781u64;
    assert_eq!(de_u64_opt_lenient(Some(&Json::text(&big.to_string()))), Ok(Some(big)));
    assert_eq!(de_u64_opt_lenient(Some(&Json::from_u64(42))), Ok(Some(42)));
}

fn event(
    sequence: u64,
    request_sequence: u64,
    correlation_id: Option<&str>,
    boundary: &str,
    component: &str,
    method: &str,
) -> BoundaryEvent {
    BoundaryEvent {
        global_sequence: sequence,
        request_sequence,
        correlation_id: correlation_id.map(str::to_owned),
        timestamp_ns: now_ns(),
        recording_run_id: None,
        graph_node_id: None,
        tracing_span_id: None,
        task_id: Some(ROOT_TASK_ID.to_string()),
        parent_task_id: None,
        task_bucket: Some(ROOT_TASK_ID.to_string()),
        bucket_id: Some(ROOT_TASK_ID.to_string()),
        fork_seq: Some(0),
        boundary: boundary.into(),
        trait_name: component.into(),
        method_name: method.into(),
        call_file: "payments.rs".into(),
        call_line: 42,
        call_column: 9,
        receiver: None,
        request: json("{}"),
        args: json("{}"),
        response: json("{}"),
        result: json("{}"),
        is_error: false,
        duration_us: 100,
        event_schema_version: CURRENT_EVENT_SCHEMA_VERSION,
        callsite_identity: None,
        provenance: Provenance::default(),
        fidelity: Fidelity::default(),
        result_image: None,
        pre_image: None,
        read_set: Vec::new(),
        write_set: Vec::new(),
        value_digest: None,
        entropy_source: None,
        replay_strategy: ReplayStrategy::default(),
        kind: None,
        declaration: None,
        raw_draw: None,
        end_timestamp_ns: None,
    }
}

#[test]
fn compute_metrics_from_events() {
    let first = event(0, 0, Some("req-1"), "storage", "PaymentIntentInterface", "find");
    let mut second = event(1, 0, None, "redis", "RedisPool", "get_key");
    second.call_file = "cache.rs".into();
    second.call_line = 10;
    second.call_column = 5;
    second.response = json(r#"{"error": "not found"}"#);
    second.result = json(r#"{"error": "not found"}"#);
    second.is_error = true;
    second.duration_us = 50;

    let metrics = compute_metrics(&vec![first, second]);
    assert_eq!(metrics.total_events, 2);
    assert_eq!(metrics.correlated_events, 1);
    assert_eq!(metrics.uncorrelated_events, 1);
    assert_eq!(metrics.unique_correlation_ids, 1);
    assert_eq!(metrics.unique_traits, 2);
    assert_eq!(metrics.error_events, 1);
    assert!(metrics.boundaries.contains(&("storage".to_owned(), 1)));
    assert!(metrics.boundaries.contains(&("redis".to_owned(), 1)));
}

#[test]
fn replay_index_uses_strict_to_loose_matching() {
    let find = "find_address_by_address_id";
    let mut first = event(0, 0, Some("req-1"), "storage", "AddressInterface", find);
    first.args = json(r#"{"address_id": "addr_1"}"#);
    first.request = first.args.clone();
    first.result = json(r#"{"ok": true}"#);
    let mut second = event(1, 1, Some("req-1"), "storage", "AddressInterface", find);
    second.call_line = 50;
    second.args = json(r#"{"address_id": "addr_2"}"#);
    second.request = second.args.clone();
    second.result = json(r#"{"ok": true}"#);
    let index = ReplayIndex::new(vec![first, second]);

    let exact_args = json(r#"{"address_id": "addr_1"}"#);
    let exact = index
        .find(ReplayQuery {
            correlation_id: Some("req-1"),
            boundary: "storage",
            trait_name: "AddressInterface",
            method_name: find,
            call_file: "payments.rs",
            call_line: 42,
            args: &exact_args,
        })
        .expect("exact match");
    assert_eq!(exact.confidence, ReplayConfidence::Exact);

    let shifted = index
        .find(ReplayQuery {
            correlation_id: Some("req-1"),
            boundary: "storage",
            trait_name: "AddressInterface",
            method_name: find,
            call_file: "payments.rs",
            call_line: 43,
            args: &exact_args,
        })
        .expect("line-shifted match");
    assert_eq!(shifted.confidence, ReplayConfidence::LineShifted);

    let changed_args = json(r#"{"address_id": "addr_changed"}"#);
    let changed = index
        .find(ReplayQuery {
            correlation_id: Some("req-1"),
            boundary: "storage",
            trait_name: "AddressInterface",
            method_name: find,
            call_file: "payments.rs",
            call_line: 42,
            args: &changed_args,
        })
        .expect("args-changed match");
    assert_eq!(changed.confidence, ReplayConfidence::ArgsChanged);

    assert_ne!(index.call_graph_fingerprint(Some("req-1")), FNV_OFFSET_BASIS);
}

/// A hook in memory, with a switch for each way a crossing can go.
struct FakeHook {
    active: bool,
    /// What a lookup gives.
    replay_value: Option<Json>,
    /// Whether live calls can be observed under replay.
    execute: bool,
    recorded: Vec<BoundaryEvent>,
    shadow_observed: Vec<Json>,
}

impl FakeHook {
    fn new(active: bool) -> Self {
        Self {
            active,
            replay_value: None,
            execute: false,
            recorded: Vec::new(),
            shadow_observed: Vec::new(),
        }
    }
}

impl DejaHook for FakeHook {
    fn mode(&self, _ambient: &Ambient) -> RuntimeMode {
        if !self.active {
            RuntimeMode::Disabled
        } else if self.replay_value.is_some() || self.execute {
            RuntimeMode::Replay
        } else {
            RuntimeMode::Record
        }
    }

    fn record(&mut self, event: BoundaryEvent) {
        self.recorded.push(event);
    }

    fn next_global_sequence(&mut self) -> u64 {
        0
    }

    fn next_request_sequence(&mut self, _correlation_id: Option<&str>) -> u64 {
        0
    }

    fn try_replay_with_context(
        &mut self,
        _query: ReplayLookup<'_>,
        _ambient: &Ambient,
    ) -> Option<Json> {
        self.replay_value.clone()
    }

    fn execute_shadow_peek(
        &mut self,
        query: ReplayLookup<'_>,
        _ambient: &Ambient,
    ) -> Option<ExecuteShadowToken> {
        if !self.execute {
            return None;
        }
        Some(ExecuteShadowToken::new(ObservedCall {
            correlation_id: None,
            boundary: query.boundary.to_string(),
            trait_name: query.trait_name.to_string(),
            method_name: query.method_name.to_string(),
            args: query.args.clone(),
            resolved: false,
            resolved_rank: None,
            source_event_global_sequence: None,
            timestamp_ns: now_ns(),
            end_timestamp_ns: None,
            task_id: Some(ROOT_TASK_ID.to_string()),
            parent_task_id: None,
            task_bucket: Some(ROOT_TASK_ID.to_string()),
            bucket_id: Some(ROOT_TASK_ID.to_string()),
            fork_seq: 0,
            call_file: None,
            call_line: None,
            call_column: None,
            span_path: None,
            graph_node_id: None,
            synthesized: false,
            real_impl_will_fail: false,
            recorded_result: None,
            observed_result: None,
            provenance: Provenance::Shadow,
            seed_gap: false,
        }))
    }

    fn execute_shadow_observe(&mut self, _token: ExecuteShadowToken, observed_result: Json) {
        self.shadow_observed.push(observed_result);
    }

    fn next_callsite_occurrence(
        &mut self,
        _correlation_id: Option<&str>,
        _source: CallsiteSource,
        _scope: Option<&str>,
        _ambient: &Ambient,
    ) -> u32 {
        0
    }

    fn recording_run_id(&self) -> Option<&str> {
        None
    }
}

fn test_identity() -> CallsiteIdentity {
    CallsiteIdentity {
        version: 1,
        source: CallsiteSource::SyntacticHash,
        id: None,
        scope: Some("T::m".to_string()),
        occurrence: 0,
        caller_function: None,
        lexical_path: Some("crate::m".to_string()),
        syntax_hash: Some(123),
        span_path: None,
    }
}

fn delegate_obs() -> DelegateObservation {
    delegate_obs_with_spec(BoundarySpec::new("unit", "T", "m"))
}

fn delegate_obs_with_spec(spec: BoundarySpec) -> DelegateObservation {
    DelegateObservation { spec, caller: here(), identity: test_identity(), receiver: None }
}

fn executed(boundary: &'static str, component: &'static str, method: &'static str) -> BoundarySpec {
    BoundarySpec::with_semantics(
        boundary,
        component,
        method,
        BoundarySemantics {
            replay_strategy: ReplayStrategy::Execute,
            kind: Some(boundary.to_string()),
            declaration: None,
        },
    )
}

fn number_output(r: &u64) -> RecordedOutput {
    RecordedOutput::new(Json::from_u64(*r), false)
}

fn number_of(recorded: Json) -> Reconstructed<u64> {
    match recorded.as_u64() {
        Some(value) => Reconstructed::Value(value),
        None => Reconstructed::Failed,
    }
}

#[test]
fn dispatch_with_hook_always_runs_the_block() {
    let mut hook = FakeHook::new(true);
    let out = dispatch_with_hook(
        &mut hook,
        delegate_obs(),
        &around(None),
        json(r#"{"k": "v"}"#),
        || 7u64,
        || around(None),
        |_v| Reconstructed::Failed,
        number_output,
    );
    assert_eq!(out, Ok(7));
}

#[test]
fn dispatch_with_hook_legacy_tuple_extractor_records_result_and_empty_images() {
    let mut hook = FakeHook::new(true);
    let out = dispatch_with_hook(
        &mut hook,
        delegate_obs(),
        &around(None),
        json(r#"{"k": "v"}"#),
        || 42u64,
        || around(None),
        |_v| Reconstructed::Failed,
        number_output,
    );
    assert_eq!(out, Ok(42));
    assert_eq!(hook.recorded.len(), 1);
    assert_eq!(hook.recorded[0].result, Json::from_u64(42));
    assert_eq!(hook.recorded[0].args, json(r#"{"k": "v"}"#));
    assert!(hook.recorded[0].read_set.is_empty());
    assert!(hook.recorded[0].write_set.is_empty());
    assert_eq!(hook.recorded[0].result_image, None);
    assert_eq!(hook.recorded[0].pre_image, None);
    assert!(hook.shadow_observed.is_empty());
}

#[test]
fn dispatch_with_hook_recorded_output_stamps_explicit_keys_images_without_db_inference() {
    let mut hook = FakeHook::new(true);
    let explicit_read = user_row("explicit_read_user");
    let explicit_write = user_row("explicit_write_user");
    let pre_image = json(r#"{"phase": "pre", "user_id": "explicit_read_user"}"#);
    let result_image = json(r#"{"phase": "post", "user_id": "explicit_write_user"}"#);
    let live_result = json(
        r#"{
            "version": 1,
            "result": "Ok",
            "value": {"user_id": "inferred_user", "merchant_id": "merch_ignored"},
            "type_name": "User"
        }"#,
    );

    let out = dispatch_with_hook(
        &mut hook,
        delegate_obs_with_spec(BoundarySpec::new("db", "Execute", "generic_update_with_results")),
        &around(None),
        json(
            r#"{
                "operation": "generic_update_with_results",
                "table": "users",
                "sql": "UPDATE \"users\" SET \"merchant_id\" = $1 WHERE \"user_id\" = $2 RETURNING *",
                "inputs": ["merch_ignored", "inferred_user"]
            }"#,
        ),
        || live_result.clone(),
        || around(None),
        |_v| Reconstructed::Failed,
        |_: &Json| {
            RecordedOutput::new(live_result.clone(), false)
                .with_read_set(vec![explicit_read.clone()])
                .with_write_set(vec![explicit_write.clone()])
                .with_result_image(result_image.clone())
                .with_pre_image(pre_image.clone())
        },
    );
    assert_eq!(out, Ok(live_result.clone()));

    assert_eq!(hook.recorded.len(), 1);
    let event = &hook.recorded[0];
    assert_eq!(event.result, live_result);
    assert_eq!(event.read_set, vec![explicit_read]);
    assert_eq!(event.write_set, vec![explicit_write]);
    assert_eq!(event.pre_image, Some(pre_image));
    assert_eq!(event.result_image, Some(result_image));
}

#[test]
fn dispatch_with_hook_lookup_hit_skips_run() {
    let mut hook = FakeHook::new(true);
    hook.replay_value = Some(json("99"));
    let ran = std::cell::Cell::new(false);
    let out = dispatch_with_hook(
        &mut hook,
        delegate_obs(),
        &around(None),
        json(r#"{"k": "v"}"#),
        || {
            ran.set(true);
            7u64
        },
        || around(None),
        number_of,
        number_output,
    );
    assert_eq!(out, Ok(99), "returned the reconstructed recorded value");
    assert!(!ran.get(), "the real block must NOT run on a lookup hit");
    assert!(hook.recorded.is_empty());
}

#[test]
fn dispatch_with_hook_lookup_hit_result_ok_error_sentinel_fail_stops_before_run() {
    let mut hook = FakeHook::new(true);
    hook.replay_value = Some(json(r#"{"deja_err": "boom"}"#));
    let ran = std::cell::Cell::new(false);

    let result = dispatch_with_hook(
        &mut hook,
        delegate_obs(),
        &around(None),
        json(r#"{"k": "v"}"#),
        || {
            ran.set(true);
            5u64
        },
        || around(None),
        |v: Json| {
            if v.get("deja_err").is_some() {
                return Reconstructed::Failed;
            }
            number_of(v)
        },
        number_output,
    );

    assert_eq!(result, Err(FailStop::SubstituteUnreconstructable));
    assert!(!ran.get(), "the stop must come before the real call");
    assert!(hook.recorded.is_empty());
}

#[test]
fn dispatch_with_hook_lookup_hit_unreconstructable_fail_stops_before_run() {
    let mut hook = FakeHook::new(true);
    hook.replay_value = Some(Json::text("not-a-u64"));
    let ran = std::cell::Cell::new(false);

    let result = dispatch_with_hook(
        &mut hook,
        delegate_obs(),
        &around(None),
        json(r#"{"k": "v"}"#),
        || {
            ran.set(true);
            5u64
        },
        || around(None),
        |_v| Reconstructed::Failed,
        number_output,
    );

    assert_eq!(result, Err(FailStop::SubstituteUnreconstructable));
    assert!(!ran.get(), "the stop must come before the real call");
    assert!(hook.recorded.is_empty());
}

#[test]
fn dispatch_with_hook_delegate_observation_execute_semantics_runs_real_and_observes_shadow() {
    let mut hook = FakeHook::new(true);
    hook.execute = true;
    let ran = std::cell::Cell::new(false);

    let out = dispatch_with_hook(
        &mut hook,
        delegate_obs_with_spec(executed("unit", "T", "m")),
        &around(None),
        json(r#"{"k": "v"}"#),
        || {
            ran.set(true);
            7u64
        },
        || around(None),
        number_of,
        number_output,
    );

    assert_eq!(out, Ok(7));
    assert!(ran.get(), "an executed call runs for real");
    assert!(hook.recorded.is_empty());
    assert_eq!(hook.shadow_observed.as_slice(), [Json::from_u64(7)]);
}

#[test]
fn dispatch_with_hook_record_and_execute_shadow_use_same_result_extractor() {
    #[derive(Debug, Clone, PartialEq, Eq)]
    enum RedisLikeValue {
        Nil,
    }

    fn capture_redis_like(value: &Result<RedisLikeValue, ()>) -> RecordedOutput {
        match value {
            Ok(RedisLikeValue::Nil) => RecordedOutput::new(Json::text("Null"), false),
            Err(()) => RecordedOutput::new(json(r#"{"deja_err": "()"}"#), true),
        }
    }

    let mut record_hook = FakeHook::new(true);
    let recorded_out = dispatch_with_hook(
        &mut record_hook,
        delegate_obs(),
        &around(None),
        json(r#"{"key": "merchant_key_store_default"}"#),
        || Ok(RedisLikeValue::Nil),
        || around(None),
        |_v| Reconstructed::Failed,
        capture_redis_like,
    );
    assert_eq!(recorded_out, Ok(Ok(RedisLikeValue::Nil)));
    assert_eq!(record_hook.recorded.len(), 1);
    let recorded_result = record_hook.recorded[0].result.clone();
    assert_eq!(recorded_result, Json::text("Null"));

    let mut shadow_hook = FakeHook::new(true);
    shadow_hook.execute = true;
    let mut spec = executed("redis", "RedisStore", "get_key");
    spec.declaration = Some(BoundaryDeclaration::default().effect(EffectKind::Redis));
    let shadow_out = dispatch_with_hook(
        &mut shadow_hook,
        delegate_obs_with_spec(spec),
        &around(None),
        json(r#"{"key": "merchant_key_store_default"}"#),
        || Ok(RedisLikeValue::Nil),
        || around(None),
        |_v| Reconstructed::Failed,
        capture_redis_like,
    );
    assert_eq!(shadow_out, Ok(Ok(RedisLikeValue::Nil)));
    assert_eq!(shadow_hook.shadow_observed.as_slice(), [recorded_result]);
}

#[test]
fn dispatch_with_hook_delegate_observation_default_spec_uses_lookup_substitute() {
    let mut hook = FakeHook::new(true);
    hook.replay_value = Some(json("99"));
    let ran = std::cell::Cell::new(false);

    let out = dispatch_with_hook(
        &mut hook,
        delegate_obs_with_spec(BoundarySpec::new("unit", "T", "m")),
        &around(None),
        json(r#"{"k": "v"}"#),
        || {
            ran.set(true);
            7u64
        },
        || around(None),
        number_of,
        number_output,
    );

    assert_eq!(out, Ok(99));
    assert!(!ran.get());
    assert!(hook.recorded.is_empty());
    assert!(hook.shadow_observed.is_empty());
}

#[test]
fn dispatch_global_inactive_runs_without_evaluating_args_thunk() {
    let args_evaluated = std::cell::Cell::new(false);
    let out = dispatch(
        &mut DisabledHook::default(),
        CrossingObservation::new(BoundarySpec::new("unit", "T", "m"), test_identity(), here()),
        &around(None),
        || {
            args_evaluated.set(true);
            json(r#"{"k": "v"}"#)
        },
        || 55u64,
        || around(None),
        |_v| Reconstructed::Failed,
        number_output,
    );
    assert_eq!(out, Ok(55));
    assert!(!args_evaluated.get(), "inactive `dispatch` must NOT evaluate the args thunk");
}

#[test]
fn crossing_observation_fall_through_silent_is_source_compatible_noop() {
    let obs = CrossingObservation::with_correlation(
        BoundarySpec::new("unit", "T", "m"),
        test_identity(),
        here(),
        Some("req-1".to_string()),
    )
    .fall_through_silent();

    assert_eq!(obs.correlation_id.as_deref(), Some("req-1"));
}

#[test]
fn a_state_capture_holds_each_key_once() {
    let capture = StateCapture::empty()
        .state_read_to("k")
        .state_read_to("k")
        .state_touch_to("k");
    assert_eq!(capture.read_set, vec!["k"]);
    assert_eq!(capture.write_set, vec!["k"]);
}
