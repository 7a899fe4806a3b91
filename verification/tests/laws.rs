//! What holds of the library as a whole, on concrete values.

use deja_runtime::ambient::{Ambient, RecordDecision, ReplayLookup};
use deja_runtime::args_hash::{canonical_args_hash, value_digest_of};
use deja_runtime::builder::{
    current_recording_run_id, inject_body_json, resolve_recording_run_id, BoundarySpec,
    CallLocation, FinishContext, LazyEventFinalizer, RecordedOutput,
};
use deja_runtime::crossing::{advance, begin, FailStop, Outcome, Step};
use deja_runtime::db_key::{db_pk_wire_value, db_query_fingerprint, db_query_state_key};
use deja_runtime::dispatch::{
    dispatch, finish_event, start_event, CrossingObservation, EventStart, Reconstructed,
};
use deja_runtime::event::{
    BoundaryEvent, BoundarySemantics, CallsiteIdentity, CallsiteSource, Provenance,
    ReplayStrategy, RuntimeMode,
};
use deja_runtime::fnv::{fnv1a_bytes, fnv1a_u64, stable_callsite_hash, FNV_OFFSET_BASIS};
use deja_runtime::graph::{
    current_execution_graph_context, graph_parent_id, ExecutionGraphLayer, SpanNodes, SpanStart,
};
use deja_runtime::hook::{DejaHook, RuntimeHook};
use deja_runtime::identity::{identity_args_hash, identity_differences, request_body_text, same};
use deja_runtime::json::Json;
use deja_runtime::lineage::{TaskLineage, ROOT_TASK_ID};
use deja_runtime::lookup::{addresses_for, KeyStamper};
use deja_runtime::lookup_hook::{LookupEntry, LookupTable, LookupTableHook};
use deja_runtime::observed::{ObservedCall, ObservedCallWire};
use deja_runtime::process::{
    capture_is_active, next_boundary_occurrence, recorder_plan, recorder_source, runtime_hook_plan,
    runtime_mode, HookPlan, RecorderSource,
};
use deja_runtime::recording::{
    clock_reading, de_u64_opt_lenient, events_in, graph_nodes_in, record_lines, DejaRecord,
    HashReadError, RecordingHook,
};
use deja_runtime::replay_hook::ReplayHook;
use deja_runtime::report::{ArgMismatchPolicy, DivergenceKind, ReplayConfig};
use deja_runtime::state_key::{
    canonical_state_key_wire, decode_hex_component, encode_hex_component, StateKey, NO_HEX_DIGIT,
    NO_SEPARATOR, NO_UTF8, ODD_LENGTH,
};

fn json(text: &str) -> Json {
    let value: serde_json::Value = serde_json::from_str(text).expect("a JSON text");
    json_of(&value)
}

fn json_of(value: &serde_json::Value) -> Json {
    match value {
        serde_json::Value::Null => Json::Null,
        serde_json::Value::Bool(b) => Json::Bool(*b),
        serde_json::Value::Number(n) => Json::Number(n.to_string()),
        serde_json::Value::String(s) => Json::String(s.clone()),
        serde_json::Value::Array(items) => Json::Array(items.iter().map(json_of).collect()),
        serde_json::Value::Object(members) => Json::Object(
            members.iter().map(|(name, member)| (name.clone(), json_of(member))).collect(),
        ),
    }
}

fn around(correlation_id: Option<&str>) -> Ambient {
    Ambient {
        correlation_id: correlation_id.map(str::to_owned),
        decision: None,
        lineage: None,
        span_path: None,
        tracing_span_id: None,
        graph_node_id: None,
        process_run_id: None,
        now_ns: 1_000,
    }
}

fn here() -> CallLocation {
    CallLocation { file: "tests/laws.rs", line: 7, column: 3 }
}

fn identity(scope: &str, occurrence: u32) -> CallsiteIdentity {
    CallsiteIdentity {
        version: 1,
        source: CallsiteSource::SyntacticHash,
        id: None,
        scope: Some(scope.to_owned()),
        occurrence,
        caller_function: None,
        lexical_path: Some("crate::module".to_owned()),
        syntax_hash: Some(stable_callsite_hash(scope)),
        span_path: None,
    }
}

/// Makes a call through a recorder: `args` go in, `result` comes out.
fn record_call(hook: &mut RecordingHook, correlation: Option<&str>, args: &str, result: &str) {
    let ambient = around(correlation);
    let site = identity("redis::Store::get", 0);
    let out = dispatch(
        hook,
        CrossingObservation::new(BoundarySpec::new("redis", "Store", "get"), site, here()),
        &ambient,
        || json(args),
        || json(result),
        || around(correlation),
        |_v| Reconstructed::Failed,
        |r: &Json| RecordedOutput::new(r.clone(), false),
    );
    assert_eq!(out, Ok(json(result)));
}

/// The lookup table of a recording.
fn rendered(events: &[BoundaryEvent]) -> LookupTable {
    let mut stamper = KeyStamper::new();
    let mut entries = Vec::new();
    for event in events {
        let addresses = addresses_for(
            &event.boundary,
            &event.method_name,
            event.callsite_identity.as_ref(),
            Some((event.call_file.as_str(), event.call_line, event.call_column)),
            event.request_sequence,
        );
        let keys = stamper.stamp(
            event.correlation_id.as_deref(),
            event.bucket_id.as_deref(),
            event.fork_seq.unwrap_or(0),
            &addresses,
            canonical_args_hash(&event.args),
        );
        for key in keys {
            entries.push(LookupEntry {
                key,
                result: event.result.clone(),
                source_event_global_sequence: event.global_sequence,
            });
        }
    }
    LookupTable { recording_id: "rec".to_owned(), policy_version: 1, entries }
}

fn look_up(hook: &mut LookupTableHook, correlation: Option<&str>, args: &str) -> Option<Json> {
    let args = json(args);
    let site = identity("redis::Store::get", 0);
    hook.try_replay_with_context(
        ReplayLookup {
            boundary: "redis",
            trait_name: "Store",
            method_name: "get",
            args: &args,
            callsite_identity: Some(&site),
            caller_location: Some(here()),
        },
        &around(correlation),
    )
}

/// A replay that makes the calls of a recording in their order is given what
/// was recorded, at the strongest address, however often a call repeats.
#[test]
fn a_recording_is_replayed_call_by_call() {
    let calls = [
        (Some("c1"), r#"{"k": 1}"#, r#""a""#),
        (Some("c1"), r#"{"k": 1}"#, r#""b""#),
        (Some("c2"), r#"{"k": 1}"#, r#""c""#),
        (None, r#"{"k": 2}"#, r#""d""#),
        (Some("c1"), r#"{"k": 1}"#, r#""e""#),
    ];
    let mut recorder = RecordingHook::with_run_id("run-1".to_owned());
    for (correlation, args, result) in calls {
        record_call(&mut recorder, correlation, args, result);
    }
    let events = events_in(recorder.take_records());
    assert_eq!(events.len(), calls.len());

    let mut replay = LookupTableHook::from_table(rendered(&events));
    assert_eq!(replay.entry_count(), calls.len() * 4);
    for (correlation, args, result) in calls {
        assert_eq!(look_up(&mut replay, correlation, args), Some(json(result)));
    }
    assert!(replay.sink.handle().iter().all(|c| c.resolved && c.resolved_rank == Some(3)));
    assert_eq!(look_up(&mut replay, Some("c1"), r#"{"k": 1}"#), None, "there was no fourth");
}

/// Calls of other correlations, with other arguments, do not count.
#[test]
fn other_calls_leave_the_numbering_alone() {
    let mut recorder = RecordingHook::with_run_id("run-1".to_owned());
    record_call(&mut recorder, Some("c1"), r#"{"k": 1}"#, r#""a""#);
    record_call(&mut recorder, Some("c1"), r#"{"k": 2}"#, r#""b""#);
    let events = events_in(recorder.take_records());
    let mut replay = LookupTableHook::from_table(rendered(&events));
    assert_eq!(look_up(&mut replay, Some("other"), r#"{"k": 1}"#), None);
    assert_eq!(look_up(&mut replay, Some("c1"), r#"{"k": 3}"#), None);
    assert_eq!(look_up(&mut replay, Some("c1"), r#"{"k": 2}"#), Some(json(r#""b""#)));
    assert_eq!(look_up(&mut replay, Some("c1"), r#"{"k": 1}"#), Some(json(r#""a""#)));
}

/// The addresses of a call stand by rank, and no two keys are alike.
#[test]
fn addresses_stand_by_rank_and_keys_are_told_apart() {
    let mut site = identity("redis::Store::get", 2);
    site.source = CallsiteSource::Explicit;
    site.id = Some("tag".to_owned());
    site.span_path = Some("root>leaf".to_owned());
    let addresses = addresses_for("redis", "get", Some(&site), Some(("a.rs", 1, 2)), 9);
    let ranks: Vec<u8> = addresses.iter().map(|a| a.rank()).collect();
    assert_eq!(ranks, [1, 2, 3, 4, 5, 6]);
    let ranks: Vec<u8> =
        addresses_for("redis", "get", None, None, 9).iter().map(|a| a.rank()).collect();
    assert_eq!(ranks, [6]);

    let mut stamper = KeyStamper::new();
    let mut keys = stamper.stamp(Some("c"), Some("root"), 0, &addresses, 5);
    keys.extend(stamper.stamp(Some("c"), Some("root"), 0, &addresses, 5));
    keys.extend(stamper.stamp(Some("c"), Some("root"), 0, &addresses, 6));
    for (i, a) in keys.iter().enumerate() {
        for b in &keys[i + 1..] {
            assert_ne!(a, b);
        }
    }
    assert_eq!(keys[0].occurrence, 0);
    assert_eq!(keys[6].occurrence, 1);
    assert_eq!(keys[12].occurrence, 0);
}

fn tape_event(sequence: u64, method: &str, args: &str, result: &str) -> BoundaryEvent {
    let mut recorder = RecordingHook::with_run_id("run-1".to_owned());
    record_call(&mut recorder, None, args, result);
    let mut event = events_in(recorder.take_records()).pop().expect("an event");
    event.global_sequence = sequence;
    event.request_sequence = sequence;
    event.method_name = method.to_owned();
    event
}

/// A tape is played in the order of its positions, only onwards, and a result
/// is not given to a call with other arguments where the policy forbids it.
#[test]
fn a_tape_is_played_onwards() {
    let events = || {
        vec![
            tape_event(2, "get", r#"{"k": 1}"#, r#""second""#),
            tape_event(1, "get", r#"{"k": 1}"#, r#""first""#),
        ]
    };
    let ambient = around(None);
    let mut hook = ReplayHook::from_events(events());
    let args = json(r#"{"k": 1}"#);
    assert_eq!(hook.try_replay("redis", "Store", "get", &args, &ambient), Some(Json::text("first")));
    assert_eq!(hook.try_replay("redis", "Store", "get", &args, &ambient), Some(Json::text("second")));
    assert_eq!(hook.try_replay("redis", "Store", "get", &args, &ambient), None);
    let report = hook.take_report();
    assert_eq!((report.divergence_count, report.matched_calls), (1, 2));
    assert!(report.has_divergences());

    let strict =
        ReplayConfig { sliding_window_size: 20, arg_mismatch_policy: ArgMismatchPolicy::Never };
    let mut hook = ReplayHook::with_config(events(), strict);
    let other = json(r#"{"k": 9}"#);
    assert_eq!(hook.try_replay("redis", "Store", "get", &other, &ambient), None);
    assert_eq!(hook.take_report().divergences[0].kind, DivergenceKind::ArgSkipBlocked);
    assert_eq!(hook.try_replay("redis", "Store", "get", &args, &ambient), Some(Json::text("first")));

    let always =
        ReplayConfig { sliding_window_size: 20, arg_mismatch_policy: ArgMismatchPolicy::Always };
    let mut hook = ReplayHook::with_config(events(), always);
    assert_eq!(
        hook.try_replay("redis", "Store", "get", &Json::Null, &ambient),
        Some(Json::text("first"))
    );
}

/// Beyond the window nothing is found.
#[test]
fn a_call_is_looked_for_within_the_window() {
    let events = vec![
        tape_event(0, "a", "{}", "1"),
        tape_event(1, "b", "{}", "2"),
        tape_event(2, "c", "{}", "3"),
    ];
    let narrow =
        ReplayConfig { sliding_window_size: 2, arg_mismatch_policy: ArgMismatchPolicy::Never };
    let mut hook = ReplayHook::with_config(events, narrow);
    let ambient = around(None);
    assert_eq!(hook.try_replay("redis", "Store", "c", &json("{}"), &ambient), None);
    assert_eq!(hook.try_replay("redis", "Store", "b", &json("{}"), &ambient), Some(json("2")));
    assert_eq!(hook.try_replay("redis", "Store", "c", &json("{}"), &ambient), Some(json("3")));
}

#[test]
fn a_crossing_goes_step_by_step() {
    let record = begin(RuntimeMode::Record, ReplayStrategy::Substitute);
    assert_eq!(record, Step::RunRecorded);
    assert_eq!(advance(record, Outcome::Ran), Step::Return);
    assert_eq!(begin(RuntimeMode::Disabled, ReplayStrategy::Execute), Step::Run);

    let executed = begin(RuntimeMode::Replay, ReplayStrategy::Execute);
    assert_eq!(executed, Step::Peek);
    assert_eq!(
        advance(executed, Outcome::Peeked(false)),
        Step::Stop(FailStop::ExecuteShadowUnavailable)
    );
    let running = advance(executed, Outcome::Peeked(true));
    assert_eq!(running, Step::RunShadowed);
    let observing = advance(running, Outcome::Ran);
    assert_eq!(observing, Step::Observe);
    assert_eq!(advance(observing, Outcome::Observed), Step::Return);

    let substituted = begin(RuntimeMode::Replay, ReplayStrategy::Substitute);
    assert_eq!(substituted, Step::LookUp);
    assert_eq!(advance(substituted, Outcome::LookedUp(false)), Step::Miss);
    let reading = advance(substituted, Outcome::LookedUp(true));
    assert_eq!(
        advance(reading, Outcome::Reconstructed(false)),
        Step::Stop(FailStop::SubstituteUnreconstructable)
    );
    assert_eq!(advance(reading, Outcome::Ran), reading, "nothing else changes a step");
}

#[test]
fn a_stop_says_why() {
    assert_eq!(
        FailStop::SubstituteMiss.message("redis", "get"),
        "deja replay fail-stop: Substitute boundary `redis::get` missed the recording (args diverged or novel call). No recorded value for these args and re-running is unsafe; halting this request. Declare `replay_strategy = Execute` to recompute instead of stopping."
    );
    assert!(FailStop::SubstituteUnreconstructable
        .message("redis", "get")
        .contains("`redis::get` hit the recording"));
    assert!(FailStop::ExecuteShadowUnavailable
        .message("redis", "get")
        .contains("could not acquire an execute-shadow token"));
}

/// Nothing recorded, and nothing to observe by: the request stops before the
/// call runs.
#[test]
fn a_replay_that_finds_nothing_stops_before_the_call() {
    let empty = || LookupTable { recording_id: "r".to_owned(), policy_version: 1, entries: vec![] };
    let ran = std::cell::Cell::new(false);
    let out = dispatch(
        &mut LookupTableHook::from_table(empty()),
        CrossingObservation::new(
            BoundarySpec::new("redis", "Store", "get"),
            identity("s", 0),
            here(),
        ),
        &around(None),
        || Json::Null,
        || ran.set(true),
        || around(None),
        |_v| Reconstructed::Failed,
        |_: &()| RecordedOutput::new(Json::Null, false),
    );
    assert_eq!(out, Err(FailStop::SubstituteMiss));
    assert!(!ran.get());

    let executed = BoundarySpec::with_semantics(
        "redis",
        "Store",
        "get",
        BoundarySemantics {
            replay_strategy: ReplayStrategy::Execute,
            kind: None,
            declaration: None,
        },
    );
    let out = dispatch(
        &mut ReplayHook::from_events(vec![]),
        CrossingObservation::new(executed, identity("s", 0), here()),
        &around(None),
        || Json::Null,
        || ran.set(true),
        || around(None),
        |_v| Reconstructed::Failed,
        |_: &()| RecordedOutput::new(Json::Null, false),
    );
    assert_eq!(out, Err(FailStop::ExecuteShadowUnavailable));
    assert!(!ran.get());
}

/// FNV-1a over the tagged bytes of a value, members by key.
#[test]
fn the_exact_hash_is_fixed() {
    assert_eq!(stable_callsite_hash("a"), 0x089b_c907_b544_c769);
    assert_eq!(canonical_args_hash(&Json::Null), 0xaf63_e34c_8601_f871);
    let value = Json::Object(vec![
        ("b".to_owned(), json(r#"[true, "x"]"#)),
        ("a".to_owned(), Json::from_u64(1)),
    ]);
    assert_eq!(canonical_args_hash(&value), 0x4d2b_10ce_f59c_b187);
    assert_eq!(canonical_args_hash(&json(r#"{"a": 1, "b": [true, "x"]}"#)), 0x4d2b_10ce_f59c_b187);
    let whole = fnv1a_bytes(FNV_OFFSET_BASIS, b"abcd");
    assert_eq!(fnv1a_bytes(fnv1a_bytes(FNV_OFFSET_BASIS, b"ab"), b"cd"), whole);
    assert_eq!(
        value_digest_of(&Json::Null, &value),
        fnv1a_u64(canonical_args_hash(&Json::Null), canonical_args_hash(&value))
    );
    assert_eq!(db_query_fingerprint("find", "users", "select 1", &Json::Null), "43d0f5a37d75adec");
}

/// A form body is read from its bytes where it has no text.
#[test]
fn a_form_body_is_read_from_its_bytes() {
    let body = json(
        r#"{"kind": "FormUrlEncodedRequestBody", "raw_bytes": [97, 61, 49, 38, 98, 61, 50]}"#,
    );
    assert_eq!(request_body_text(&body).as_deref(), Some("a=1&b=2"));
    let text = json(r#"{"kind": "FormUrlEncodedRequestBody", "text": "b=2&a=1"}"#);
    assert_eq!(identity_args_hash(&body), identity_args_hash(&text));
    assert_eq!(canonical_args_hash(&body), canonical_args_hash(&text));
    let no_text = json(r#"{"kind": "FormUrlEncodedRequestBody", "raw_bytes": [255]}"#);
    assert_eq!(request_body_text(&no_text), None);
}

/// Where a call could not be written another way, identity and exact hash
/// agree and nothing is reported.
#[test]
fn a_plain_call_is_its_identity() {
    let a = json(r#"{"x": {"n": [1], "s": "t"}, "y": null}"#);
    let b = json(r#"{"y": null, "x": {"s": "t", "n": [1]}}"#);
    assert!(same(&a, &b));
    assert_eq!(canonical_args_hash(&a), canonical_args_hash(&b));
    assert_eq!(identity_differences(&a, &b), Some(vec![]));
    assert!(!same(&json(r#""{}""#), &json("{}")), "a document in a text is no object");
}

#[test]
fn typed_keys_are_read_back() {
    let keys = [
        StateKey::DbRow {
            table: "a:b".to_owned(),
            pk_column: String::new(),
            pk_value: "\u{e9}".to_owned(),
        },
        StateKey::DbQuery { table: "t".to_owned(), fingerprint: "f".to_owned() },
        StateKey::RedisKey { key: "k".to_owned() },
        StateKey::Opaque("plain".to_owned()),
    ];
    for key in keys {
        let wire = key.to_wire();
        assert_eq!(StateKey::parse(&wire), Ok(key));
        assert_eq!(canonical_state_key_wire(&wire), wire);
    }
    assert_eq!(StateKey::RedisKey { key: "k".to_owned() }.to_wire(), "deja:state:v1:redis:6b");
    assert_eq!(
        canonical_state_key_wire("deja:state:v1:redis:6B"),
        "deja:state:v1:redis:6b",
        "one key has one written form"
    );
    assert_eq!(encode_hex_component("\u{e9}"), "c3a9");
    assert_eq!(decode_hex_component("c3a9"), Ok("\u{e9}".to_owned()));
    let key = db_query_state_key("find", "users", "select 1", &Json::Null);
    assert_eq!(key.db_table(), Some("users"));
}

#[test]
fn a_key_that_cannot_be_read_says_why() {
    let why = |wire: &str| StateKey::parse(wire).expect_err("no key").message().to_owned();
    assert_eq!(why("deja:state:v1"), NO_SEPARATOR);
    assert_eq!(why("deja:state:v1redis:6b"), NO_SEPARATOR);
    assert_eq!(why("deja:state:v1:redis:6"), ODD_LENGTH);
    assert_eq!(why("deja:state:v1:redis:6x"), NO_HEX_DIGIT);
    assert_eq!(why("deja:state:v1:redis:ff"), NO_UTF8);
    assert_eq!(
        StateKey::parse("deja:state:v1:unknown:6b"),
        Ok(StateKey::Opaque("deja:state:v1:unknown:6b".to_owned()))
    );
}

/// A body goes into the result as its bytes, its text and its document, as far
/// as it has them.
#[test]
fn a_body_is_put_into_its_result() {
    let mut result = json(r#"{"status": 200}"#);
    inject_body_json(&mut result, br#"{"b":1,"a":[]}"#.to_vec());
    let body = result.get("response_body").expect("a body");
    assert_eq!(body.get("json"), Some(&json(r#"{"b": 1, "a": []}"#)));
    assert_eq!(body.get("text").and_then(Json::as_str), Some(r#"{"b":1,"a":[]}"#));
    assert_eq!(body.get("utf8"), Some(&Json::Bool(true)));
    assert_eq!(body.get("bytes_len").and_then(Json::as_u64), Some(14));

    let mut result = json("{}");
    inject_body_json(&mut result, vec![0xff]);
    let body = result.get("response_body").expect("a body");
    assert_eq!(body.get("utf8"), Some(&Json::Bool(false)));
    assert_eq!(body.get("text"), Some(&Json::Null));
    assert_eq!(body.get("json"), Some(&Json::Null));
    assert_eq!(body.get("raw_bytes"), Some(&json("[255]")));

    let mut result = Json::text("no object");
    inject_body_json(&mut result, vec![1]);
    assert_eq!(result, Json::text("no object"));
}

#[test]
fn a_streamed_body_finishes_its_event() {
    let mut hook = RecordingHook::with_run_id("run-1".to_owned());
    let builder = start_event(
        &mut hook,
        EventStart {
            spec: BoundarySpec::new("http_incoming", "T", "m"),
            caller: here(),
            receiver: None,
            correlation_id: Some("own".to_owned()),
            args: Json::Null,
            identity: None,
            state_capture: None,
        },
        &around(Some("surrounding")),
    );
    let mut finalizer = LazyEventFinalizer::new(builder, json(r#"{"status": 500}"#), true);
    assert_eq!(finalizer.correlation_id(), Some("own"));
    finalizer.capture_chunk(b"ab");
    finalizer.capture_chunk(b"c");
    let event = finalizer.finalize(FinishContext {
        end_ns: 4_500,
        hook_run_id: Some("run-1".to_owned()),
        process_run_id: None,
        lineage: TaskLineage::root(),
    });
    assert!(event.is_error);
    assert_eq!(event.correlation_id.as_deref(), Some("own"));
    assert_eq!(event.recording_run_id.as_deref(), Some("run-1"));
    assert_eq!(event.duration_us, 3);
    assert_eq!(event.end_timestamp_ns, Some(4_500));
    assert_eq!(
        event.result.get("response_body").and_then(|b| b.get("text")).and_then(Json::as_str),
        Some("abc")
    );
}

#[test]
fn a_run_is_named_by_what_was_given() {
    assert_eq!(current_recording_run_id(Some(String::new())), None);
    assert_eq!(current_recording_run_id(Some("r".to_owned())).as_deref(), Some("r"));
    assert_eq!(resolve_recording_run_id(Some("a".to_owned()), Some("b".to_owned()), 7), "a");
    assert_eq!(resolve_recording_run_id(Some(String::new()), Some("b".to_owned()), 7), "b");
    assert_eq!(resolve_recording_run_id(None, None, 7), "run-7");
}

#[test]
fn a_process_is_hooked_as_it_was_started() {
    let some = |s: &str| Some(s.to_owned());
    assert_eq!(runtime_hook_plan(None, some("d"), None, None), HookPlan::Off);
    assert_eq!(
        runtime_hook_plan(some("record"), some("d"), None, None),
        HookPlan::Record { dir: "d".to_owned() }
    );
    assert_eq!(runtime_hook_plan(some("record"), None, None, None), HookPlan::Off);
    assert_eq!(
        runtime_hook_plan(some("replay"), some("d"), some("t"), None),
        HookPlan::ReplayTable { table: "t".to_owned(), observed: None, otherwise: some("d") }
    );
    assert_eq!(
        runtime_hook_plan(some("replay"), some("d"), None, None),
        HookPlan::ReplayTape { dir: "d".to_owned() }
    );
    assert_eq!(runtime_hook_plan(some("off"), some("d"), None, None), HookPlan::Off);
    assert_eq!(
        runtime_hook_plan(some("loud"), some("d"), None, None),
        HookPlan::UnknownMode { mode: "loud".to_owned() }
    );
    assert_eq!(recorder_plan(Some("record"), some("d")), some("d"));
    assert_eq!(recorder_plan(Some("replay"), some("d")), None);
    assert_eq!(recorder_source(None), RecorderSource::Standalone);
    assert_eq!(recorder_source(Some(&None)), RecorderSource::Nowhere);

    let mut hook = Some(RuntimeHook::Recording(RecordingHook::with_run_id("r".to_owned())));
    assert_eq!(recorder_source(Some(&hook)), RecorderSource::Hook);
    let mut ambient = around(Some("c"));
    assert_eq!(runtime_mode(&hook, &ambient), RuntimeMode::Record);
    assert!(capture_is_active(&hook, None, &ambient));
    let next = |hook: &mut Option<RuntimeHook>, ambient: &Ambient| {
        next_boundary_occurrence(hook, Some("c"), CallsiteSource::LexicalPath, Some("s"), ambient)
    };
    assert_eq!((next(&mut hook, &ambient), next(&mut hook, &ambient)), (0, 1));
    ambient.decision = Some(RecordDecision::Skip);
    assert_eq!(runtime_mode(&hook, &ambient), RuntimeMode::Disabled);
    assert_eq!(runtime_mode(&None, &ambient), RuntimeMode::Disabled);
}

/// Spans are nodes, numbered as they open; a node closes no earlier than it
/// opened.
#[test]
fn spans_are_nodes_of_a_graph() {
    let mut layer = ExecutionGraphLayer::new();
    let mut nodes = SpanNodes::new();
    let start = |name: &str| SpanStart {
        span_name: name.to_owned(),
        target: "router".to_owned(),
        level: "INFO".to_owned(),
        fields: Json::Object(vec![]),
        started_ns: 100,
    };
    let root = layer.on_new_span(&mut nodes, 11, None, start("root"));
    assert_eq!(graph_parent_id(None, true, nodes.node_id_for_span(11)), Some(0));
    assert_eq!(graph_parent_id(Some(5), true, Some(0)), Some(5));
    assert_eq!(graph_parent_id(None, false, Some(0)), None);
    let mut child = layer.on_new_span(&mut nodes, 12, Some(0), start("child"));
    assert_eq!((root.node_id, child.node_id, child.sequence), (0, 1, 1));
    assert_eq!(current_execution_graph_context(&nodes, Some(12)), (Some(12), Some(1)));
    child.record_field("a".to_owned(), Json::from_u64(1));
    child.record_field("a".to_owned(), Json::from_u64(2));
    child.follows_from(7);
    child.follows_from(7);
    let node = ExecutionGraphLayer::on_close(&mut nodes, 12, child, 90);
    assert_eq!(node.closed_ns, Some(100));
    assert_eq!(node.parent_id, Some(0));
    assert_eq!(node.causal_parent_ids, vec![7]);
    assert_eq!(node.fields, json(r#"{"a": 2}"#));
    assert_eq!(nodes.node_id_for_span(12), None);

    let mut hook = RecordingHook::with_run_id("run-1".to_owned());
    hook.graph_node(node);
    let records = hook.take_records();
    assert_eq!(records.len(), 1);
    assert!(matches!(&records[0], DejaRecord::GraphNode(n) if n.node_id == 1));
    assert_eq!(graph_nodes_in(records).len(), 1);
}

/// An observed call has both bucket labels where it was written with one.
#[test]
fn bucket_labels_are_read_from_one_another() {
    let wire = |task_bucket: Option<&str>, bucket_id: Option<&str>| ObservedCallWire {
        correlation_id: None,
        boundary: "db".to_owned(),
        trait_name: "Store".to_owned(),
        method_name: "find".to_owned(),
        args: Json::Null,
        resolved: false,
        resolved_rank: None,
        source_event_global_sequence: None,
        timestamp_ns: 0,
        end_timestamp_ns: None,
        task_id: None,
        parent_task_id: None,
        task_bucket: task_bucket.map(str::to_owned),
        bucket_id: bucket_id.map(str::to_owned),
        fork_seq: 0,
        call_file: None,
        call_line: None,
        call_column: None,
        span_path: None,
        graph_node_id: None,
        synthesized: false,
        real_impl_will_fail: false,
        recorded_result: None,
        observed_result: None,
        provenance: Provenance::Recorded,
        seed_gap: false,
    };
    let call = ObservedCall::from(wire(Some("legacy-bucket"), None));
    assert_eq!(call.bucket_id.as_deref(), Some("legacy-bucket"));
    assert_eq!(call.task_bucket, call.bucket_id);
    let call = ObservedCall::from(wire(None, Some("bucket")));
    assert_eq!(call.task_bucket.as_deref(), Some("bucket"));
    let call = ObservedCall::from(wire(None, None));
    assert_eq!((call.task_bucket, call.bucket_id), (None, None));
}

#[test]
fn the_clock_is_cut_to_64_bits() {
    assert_eq!(clock_reading(None), 0);
    assert_eq!(clock_reading(Some(7)), 7);
    assert_eq!(clock_reading(Some((1u128 << 64) + 5)), 5);
}

#[test]
fn blank_lines_hold_no_record() {
    assert_eq!(record_lines("a\n\n  \nb\n"), vec!["a", "b"]);
    assert!(record_lines("").is_empty());
}

#[test]
fn a_hash_is_read_from_a_number_or_a_text() {
    assert_eq!(de_u64_opt_lenient(None), Ok(None));
    assert_eq!(de_u64_opt_lenient(Some(&Json::Null)), Ok(None));
    assert_eq!(de_u64_opt_lenient(Some(&json("-1"))), Ok(None));
    assert_eq!(de_u64_opt_lenient(Some(&Json::text("+5"))), Ok(Some(5)));
    assert_eq!(de_u64_opt_lenient(Some(&Json::text("x"))), Err(HashReadError::Text));
    assert_eq!(
        de_u64_opt_lenient(Some(&json(r#"{"b": [1, null], "a": "x"}"#))),
        Err(HashReadError::Other(
            r#"syntax_hash: expected u64 number or string, got {"b":[1,null],"a":"x"}"#.to_owned()
        ))
    );
}

/// Finishing an event stamps the lineage and the run of its surroundings.
#[test]
fn an_event_carries_its_surroundings() {
    let mut hook = RecordingHook::with_run_id("run-7".to_owned());
    let mut ambient = around(Some("c"));
    ambient.graph_node_id = Some(4);
    ambient.tracing_span_id = Some(9);
    ambient.lineage = Some(TaskLineage {
        task_id: "root::fork-1".to_owned(),
        parent_task_id: Some("root".to_owned()),
        bucket_id: "root::fork-1".to_owned(),
        fork_seq: 1,
    });
    let builder = start_event(
        &mut hook,
        EventStart {
            spec: BoundarySpec::new("db", "T", "m"),
            caller: here(),
            receiver: Some(Json::text("self")),
            correlation_id: None,
            args: Json::Null,
            identity: None,
            state_capture: None,
        },
        &ambient,
    );
    finish_event(&mut hook, builder, RecordedOutput::new(Json::Null, false), &ambient, 3_000);
    let event = events_in(hook.take_records()).pop().expect("an event");
    assert_eq!(event.correlation_id.as_deref(), Some("c"));
    assert_eq!((event.graph_node_id, event.tracing_span_id), (Some(4), Some(9)));
    assert_eq!(event.recording_run_id.as_deref(), Some("run-7"));
    assert_eq!(event.task_id.as_deref(), Some("root::fork-1"));
    assert_eq!(event.bucket_id.as_deref(), Some("root::fork-1"));
    assert_eq!(event.fork_seq, Some(1));
    assert_eq!(event.receiver, Some(Json::text("self")));
    assert_eq!(event.duration_us, 2);
    assert_ne!(event.bucket_id.as_deref(), Some(ROOT_TASK_ID));
    assert!(hook.is_active(&ambient));
}

#[test]
fn a_key_that_was_read_is_written_back() {
    for wire in ["plain", "deja:state:v1:other:6B", "deja:state:v1:redis", "Deja:State", ""] {
        if let Ok(key) = StateKey::parse(wire) {
            assert_eq!(key, StateKey::Opaque(wire.to_owned()));
            assert_eq!(key.to_wire(), wire);
        }
    }
    for wire in [
        "deja:state:v1:redis:4B6C",
        "deja:state:v1:db_row:7573657273:6964:C3A9",
        "deja:state:v1:db_query::aF",
    ] {
        match StateKey::parse(wire) {
            Ok(key) => assert_eq!(key.to_wire(), wire.to_ascii_lowercase()),
            Err(why) => assert_eq!(why.message(), NO_UTF8, "{wire}"),
        }
    }
}

#[test]
fn no_order_is_read_at_any_depth() {
    let a = json(
        r#"{"g": [{"s": ["a", ["b", "c"]], "t": 1}, [1, 2, 2]], "d": "{\"x\": [1, [2, 3]]}"}"#,
    );
    let b = json(
        r#"{"d": "{\"x\": [[3, 2], 1]}", "g": [[2, 1, 2], {"t": 1, "s": [["c", "b"], "a"]}]}"#,
    );
    let c = json(
        r#"{"d": "{\"x\": [[3, 2], 1]}", "g": [[2, 1], {"t": 1, "s": [["c", "b"], "a"]}]}"#,
    );
    assert!(same(&a, &a));
    assert!(same(&a, &b) && same(&b, &a));
    assert_eq!(identity_args_hash(&a), identity_args_hash(&b));
    assert!(!same(&a, &c) && !same(&c, &a));
}

#[test]
fn a_number_keeps_its_text() {
    let mut bits: u64 = 0x9e37_79b9_7f4a_7c15;
    for _ in 0..20_000 {
        bits = bits.wrapping_mul(6_364_136_223_846_793_005).wrapping_add(1_442_695_040_888_963_407);
        if let Some(number) = serde_json::Number::from_f64(f64::from_bits(bits)) {
            let text = number.to_string();
            assert_eq!(db_pk_wire_value(&Json::Number(text.clone())), text);
        }
    }
    for text in ["0", "-1", "18446744073709551615", "-9223372036854775808", "0.1", "-0.0"] {
        assert_eq!(db_pk_wire_value(&Json::Number(text.to_owned())), text);
    }
    assert_eq!(db_pk_wire_value(&Json::Number("one".to_owned())), "null");
}

#[test]
fn a_report_counts_its_divergences() {
    let mut hook = ReplayHook::from_events(vec![
        tape_event(0, "get", "null", "1"),
        tape_event(1, "get", "null", "2"),
    ]);
    assert_eq!(hook.next_global_sequence(), 2, "its own numbers go on behind the recorded ones");
    let ambient = around(None);
    for method in ["novel", "novel", "get", "get", "get"] {
        let before = hook.take_report();
        let given = hook.try_replay("redis", "Store", method, &Json::Null, &ambient);
        let after = hook.take_report();
        assert_eq!(after.divergence_count, after.divergences.len() as u64);
        assert_eq!(after.matched_calls, before.matched_calls + u64::from(given.is_some()));
        if given.is_none() {
            assert_eq!(after.divergence_count, before.divergence_count + 1);
        }
    }
}
