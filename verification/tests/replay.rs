//! Replay against a tape and against a lookup table.

use deja_runtime::ambient::{Ambient, ReplayLookup};
use deja_runtime::args_hash::canonical_args_hash;
use deja_runtime::builder::BoundarySpec;
use deja_runtime::crossing::replay_strategy_to_execute_mode;
use deja_runtime::dispatch::boundary_execute_mode_for;
use deja_runtime::event::{
    BoundaryDeclaration, BoundaryEvent, BoundarySemantics, CallsiteIdentity, CallsiteSource,
    EffectKind, ExecuteMode, Fidelity, Provenance, ReplayStrategy, CURRENT_EVENT_SCHEMA_VERSION,
};
use deja_runtime::fnv::stable_callsite_hash;
use deja_runtime::hook::RuntimeHook;
use deja_runtime::json::Json;
use deja_runtime::lineage::ROOT_TASK_ID;
use deja_runtime::lookup::{addresses_for, Address, KeyStamper, LookupKey};
use deja_runtime::lookup_hook::{LookupEntry, LookupTable, LookupTableHook};
use deja_runtime::recording::now_ns;
use deja_runtime::replay_hook::ReplayHook;
use deja_runtime::report::{DivergenceKind, ReplayConfig};
use std::collections::HashMap;

fn json(text: &str) -> Json {
    let value: serde_json::Value = serde_json::from_str(text).expect("a JSON text");
    json_of(&value)
}

fn json_of(value: &serde_json::Value) -> Json {
    match value {
        serde_json::Value::Null => Json::Null,
        serde_json::Value::Bool(b) => Json::Bool(*b),
        serde_json::Value::Number(n) => Json::Number(n.to_string()),
        serde_json::Value::String(s) => Json::String(s.clone()),
        serde_json::Value::Array(items) => Json::Array(items.iter().map(json_of).collect()),
        serde_json::Value::Object(members) => Json::Object(
            members.iter().map(|(name, member)| (name.clone(), json_of(member))).collect(),
        ),
    }
}

fn ok(value: &str) -> Json {
    Json::Object(vec![("Ok".to_owned(), Json::text(value))])
}

fn around(correlation_id: Option<&str>) -> Ambient {
    Ambient {
        correlation_id: correlation_id.map(str::to_owned),
        decision: None,
        lineage: None,
        span_path: None,
        tracing_span_id: None,
        graph_node_id: None,
        process_run_id: None,
        now_ns: 1_000,
    }
}

fn make_event(
    req_seq: u64,
    correlation_id: Option<&str>,
    method: &str,
    args: Json,
    result: Json,
    is_error: bool,
) -> BoundaryEvent {
    BoundaryEvent {
        global_sequence: req_seq,
        request_sequence: req_seq,
        correlation_id: correlation_id.map(String::from),
        timestamp_ns: now_ns(),
        recording_run_id: None,
        graph_node_id: None,
        tracing_span_id: None,
        task_id: Some(ROOT_TASK_ID.to_string()),
        parent_task_id: None,
        task_bucket: Some(ROOT_TASK_ID.to_string()),
        bucket_id: Some(ROOT_TASK_ID.to_string()),
        fork_seq: Some(0),
        boundary: "storage".into(),
        trait_name: "PaymentStore".into(),
        method_name: method.into(),
        call_file: "test.rs".into(),
        call_line: 10,
        call_column: 5,
        receiver: None,
        request: args.clone(),
        args,
        response: result.clone(),
        result,
        is_error,
        duration_us: 100,
        event_schema_version: CURRENT_EVENT_SCHEMA_VERSION,
        callsite_identity: None,
        provenance: Provenance::default(),
        fidelity: Fidelity::default(),
        result_image: None,
        pre_image: None,
        read_set: Vec::new(),
        write_set: Vec::new(),
        value_digest: None,
        entropy_source: None,
        replay_strategy: ReplayStrategy::default(),
        kind: None,
        declaration: None,
        raw_draw: None,
        end_timestamp_ns: None,
    }
}

#[test]
fn replay_exact_match() {
    let ambient = around(None);
    let events = vec![make_event(
        0,
        None,
        "find_user",
        json(r#"{"id": 42}"#),
        json(r#"{"Ok": "Alice"}"#),
        false,
    )];

    let mut hook = ReplayHook::new(events, ReplayConfig::default(), 100);

    let result = hook.try_replay(
        "storage",
        "PaymentStore",
        "find_user",
        &json(r#"{"id": 42}"#), &ambient);

    assert_eq!(result, Some(json(r#"{"Ok": "Alice"}"#)));
    let report = hook.take_report();
    assert_eq!(report.matched_calls, 1);
    assert!(report.divergences.is_empty());
}

#[test]
fn replay_novel_call_logged_as_divergence() {
    let ambient = around(None);
    let events = vec![make_event(
        0,
        None,
        "find_user",
        json(r#"{"id": 42}"#),
        json(r#"{"Ok": "Alice"}"#),
        false,
    )];

    let mut hook = ReplayHook::new(events, ReplayConfig::default(), 100);

    let result = hook.try_replay(
        "storage",
        "PaymentStore",
        "delete_user",
        &json(r#"{"id": 42}"#), &ambient);

    assert!(result.is_none());
    let report = hook.take_report();
    assert_eq!(report.divergences.len(), 1);
    assert_eq!(report.divergences[0].kind, DivergenceKind::NovelCall);
}

#[test]
fn replay_sliding_window_recovery() {
    let ambient = around(None);
    let events = vec![
        make_event(
            0,
            None,
            "step_a",
            json("{}"),
            json(r#"{"Ok": true}"#),
            false,
        ),
        make_event(
            1,
            None,
            "step_b",
            json("{}"),
            json(r#"{"Ok": true}"#),
            false,
        ),
        make_event(
            2,
            None,
            "step_c",
            json(r#"{"x": 1}"#),
            json(r#"{"Ok": "found"}"#),
            false,
        ),
    ];

    let mut hook = ReplayHook::new(events, ReplayConfig::default(), 100);

    let result = hook.try_replay(
        "storage",
        "PaymentStore",
        "step_c",
        &json(r#"{"x": 1}"#), &ambient);

    assert_eq!(result, Some(json(r#"{"Ok": "found"}"#)));
    let report = hook.take_report();
    assert_eq!(report.divergences.len(), 1);
    assert_eq!(report.divergences[0].kind, DivergenceKind::OmittedCall);
    assert!(report.divergences[0].detail.contains("2"));
}

#[test]
fn replay_arg_mismatch_argful_default() {
    let ambient = around(None);
    let events = vec![make_event(
        0,
        None,
        "find_user",
        json(r#"{"id": 42}"#),
        json(r#"{"Ok": "Alice"}"#),
        false,
    )];

    let mut hook = ReplayHook::new(events, ReplayConfig::default(), 100);

    let result = hook.try_replay(
        "storage",
        "PaymentStore",
        "find_user",
        &json(r#"{"id": 99}"#), &ambient);

    assert_eq!(result, Some(json(r#"{"Ok": "Alice"}"#)));
    let report = hook.take_report();
    assert_eq!(report.divergences.len(), 1);
    assert_eq!(report.divergences[0].kind, DivergenceKind::ArgsDiverged);
}

#[test]
fn argless_call_fails_closed_under_default_policy() {
    let ambient = around(None);
    let events = vec![make_event(
        0,
        None,
        "current_time",
        Json::Null,
        json(r#"{"Ok": 1700000000}"#),
        false,
    )];

    let mut hook = ReplayHook::new(events, ReplayConfig::default(), 100);

    let result = hook.try_replay(
        "storage",
        "PaymentStore",
        "current_time",
        &json("{}"), &ambient);

    assert!(
        result.is_none(),
        "default policy must NOT return a recorded argless result on mismatch"
    );

    let report = hook.take_report();
    assert!(
        report.divergence_count > 0,
        "argless mismatch must register at least one divergence"
    );
    assert!(
        report
            .divergences
            .iter()
            .any(|d| d.kind == DivergenceKind::ArgSkipBlocked),
        "expected at least one ArgSkipBlocked divergence; got: {:?}",
        report
            .divergences
            .iter()
            .map(|d| d.kind.clone())
            .collect::<Vec<_>>()
    );
}

fn entry_with(
    correlation_id: Option<&str>,
    address: Address,
    args: &Json,
    occurrence: u32,
    result: Json,
    source_event_global_sequence: u64,
) -> LookupEntry {
    LookupEntry {
        key: LookupKey {
            correlation_id: correlation_id.map(str::to_owned),
            bucket_id: Some(ROOT_TASK_ID.to_string()),
            fork_seq: 0,
            address,
            args_hash: canonical_args_hash(args),
            occurrence,
        },
        result,
        source_event_global_sequence,
    }
}

fn explicit(tag: &str) -> Address {
    Address::Explicit(tag.to_owned())
}

fn lexical_identity(path: &str) -> CallsiteIdentity {
    CallsiteIdentity {
        version: 1,
        source: CallsiteSource::LexicalPath,
        id: None,
        scope: None,
        occurrence: 0,
        caller_function: None,
        lexical_path: Some(path.to_owned()),
        syntax_hash: None,
        span_path: None,
    }
}

fn explicit_identity(tag: &str) -> CallsiteIdentity {
    CallsiteIdentity {
        version: 1,
        source: CallsiteSource::Explicit,
        id: Some(tag.to_owned()),
        scope: None,
        occurrence: 0,
        caller_function: None,
        lexical_path: None,
        syntax_hash: None,
        span_path: None,
    }
}

#[test]
fn lookup_table_hook_resolves_by_args_hash_and_records_observation() {
    let ambient = around(None);
    let table = LookupTable {
        recording_id: "rec-1".to_owned(),
        policy_version: 1,
        entries: vec![
            entry_with(
                None,
                explicit("site"),
                &json(r#"{"id": 1}"#),
                0,
                Json::text("alpha"),
                7,
            ),
            entry_with(
                None,
                explicit("site"),
                &json(r#"{"id": 2}"#),
                0,
                Json::text("beta"),
                9,
            ),
        ],
    };
    let mut hook = LookupTableHook::from_table(table);

    let identity = explicit_identity("site");
    let mut call = |args: Json| {
        hook.try_replay_with_context(ReplayLookup {
            boundary: "redis",
            trait_name: "RedisStore",
            method_name: "get_key",
            args: &args,
            callsite_identity: Some(&identity),
            caller_location: None,
        }, &ambient)
    };

    assert_eq!(
        call(json(r#"{"id": 2}"#)),
        Some(Json::text("beta"))
    );
    assert_eq!(
        call(json(r#"{"id": 1}"#)),
        Some(Json::text("alpha"))
    );
    assert_eq!(
        call(json(r#"{"id": 3}"#)),
        None,
        "a re-keyed call now misses instead of serving a stale value"
    );

    let calls = hook.sink.handle();
    assert_eq!(calls.len(), 3);
    assert_eq!(
        calls[0].resolved_rank,
        Some(1),
        "explicit address is rank 1"
    );
    assert_eq!(calls[0].source_event_global_sequence, Some(9));
    assert_eq!(calls[1].source_event_global_sequence, Some(7));
    assert!(!calls[2].resolved);
    assert_eq!(calls[2].resolved_rank, None);
    assert_eq!(
        calls[0].boundary, "redis",
        "boundary carried on the observation"
    );
}

#[test]
fn lookup_resolves_iteration_order_independent() {
    let ambient = around(None);
    let identity = lexical_identity("crate::pay::confirm::loop");
    let mut stamper = KeyStamper::new();
    let mut entries = Vec::new();
    for (i, connector) in [1u64, 2, 3].into_iter().enumerate() {
        let args = json(&format!("{{\"connector\":{connector}}}"));
        let addresses = addresses_for("redis", "get_key", Some(&identity), None, i as u64);
        for key in stamper.stamp(
            None,
            Some(ROOT_TASK_ID),
            0,
            &addresses,
            canonical_args_hash(&args),
        ) {
            entries.push(LookupEntry {
                key,
                result: Json::text(&format!("v{connector}")),
                source_event_global_sequence: i as u64,
            });
        }
    }
    let table = LookupTable {
        recording_id: "rec-1".to_owned(),
        policy_version: 1,
        entries,
    };
    let mut hook = LookupTableHook::from_table(table);

    let mut call = |connector: u64| {
        hook.try_replay_with_context(ReplayLookup {
            boundary: "redis",
            trait_name: "RedisStore",
            method_name: "get_key",
            args: &json(&format!("{{\"connector\":{connector}}}")),
            callsite_identity: Some(&identity),
            caller_location: None,
        }, &ambient)
    };
    assert_eq!(call(3), Some(Json::text("v3")));
    assert_eq!(call(1), Some(Json::text("v1")));
    assert_eq!(call(2), Some(Json::text("v2")));

    let calls = hook.sink.handle();
    assert_eq!(calls.len(), 3);
    assert!(
        calls
            .iter()
            .all(|c| c.resolved && c.resolved_rank == Some(4)),
        "every call resolves at rank 4 regardless of iteration order"
    );
}

fn boundary_identity(scope: &str, occurrence: u32) -> CallsiteIdentity {
    CallsiteIdentity {
        version: 1,
        source: CallsiteSource::SyntacticHash,
        id: None,
        scope: Some(scope.to_owned()),
        occurrence,
        caller_function: Some("crate::module".to_owned()),
        lexical_path: Some("crate::module".to_owned()),
        syntax_hash: Some(stable_callsite_hash(scope)),
        span_path: None,
    }
}

fn render_table(events: &[BoundaryEvent]) -> LookupTable {
    let mut stamper = KeyStamper::new();
    let mut request_seq: HashMap<Option<String>, u64> = HashMap::new();
    let mut entries = Vec::new();
    for event in events {
        let slot = request_seq.entry(event.correlation_id.clone()).or_insert(0);
        let request_sequence = *slot;
        *slot += 1;
        let location = Some((event.call_file.as_str(), event.call_line, event.call_column));
        let addresses = addresses_for(
            &event.boundary,
            &event.method_name,
            event.callsite_identity.as_ref(),
            location,
            request_sequence,
        );
        let args_hash = canonical_args_hash(&event.args);
        let bucket_id = event
            .bucket_id
            .as_deref()
            .or(event.task_bucket.as_deref())
            .unwrap_or(ROOT_TASK_ID);
        let fork_seq = event.fork_seq.unwrap_or(0);
        for key in stamper.stamp(
            event.correlation_id.as_deref(),
            Some(bucket_id),
            fork_seq,
            &addresses,
            args_hash,
        ) {
            entries.push(LookupEntry {
                key,
                result: event.result.clone(),
                source_event_global_sequence: event.global_sequence,
            });
        }
    }
    LookupTable {
        recording_id: "rec-boundary".to_owned(),
        policy_version: 1,
        entries,
    }
}

#[test]
fn lookup_table_replay_is_correlation_isolated_across_parallel_requests() {
    let identity = explicit_identity("redis-get-key-parallel");
    let args = json(r#"{"key": "shared"}"#);
    let event = |global_sequence: u64, correlation_id: &str, value: &str| {
        let mut event = make_event(
            global_sequence,
            Some(correlation_id),
            "get_key",
            args.clone(),
            ok(value),
            false,
        );
        event.boundary = "redis".to_owned();
        event.trait_name = "RedisStore".to_owned();
        event.callsite_identity = Some(identity.clone());
        event
    };
    let table = render_table(&[event(0, "corr-a", "value-a"), event(1, "corr-b", "value-b")]);
    let mut hook = LookupTableHook::from_table(table);

    let mut returned = Vec::new();
    for correlation_id in ["corr-b", "corr-a"] {
        returned.push(hook.try_replay_with_context(
            ReplayLookup {
                boundary: "redis",
                trait_name: "RedisStore",
                method_name: "get_key",
                args: &args,
                callsite_identity: Some(&identity),
                caller_location: None,
            },
            &around(Some(correlation_id)),
        ));
    }
    assert_eq!(returned[0], Some(ok("value-b")), "corr-b must replay its own recorded result");
    assert_eq!(returned[1], Some(ok("value-a")), "corr-a must replay its own recorded result");

    let calls = hook.sink.handle();
    assert_eq!(calls.len(), 2);
    for (call, (correlation_id, expected_value)) in calls.iter().rev().zip([
        ("corr-a", json(r#"{"Ok": "value-a"}"#)),
        ("corr-b", json(r#"{"Ok": "value-b"}"#)),
    ]) {
        assert_eq!(call.correlation_id.as_deref(), Some(correlation_id));
        assert_eq!(call.boundary, "redis");
        assert_eq!(call.trait_name, "RedisStore");
        assert_eq!(call.method_name, "get_key");
        assert_eq!(call.args, args);
        assert!(call.resolved, "{correlation_id} should resolve");
        assert_eq!(call.resolved_rank, Some(1));
        assert_eq!(call.recorded_result.as_ref(), Some(&expected_value));
        assert_eq!(call.observed_result.as_ref(), Some(&expected_value));
    }
}

#[test]
fn stable_callsite_hash_is_deterministic_and_line_shift_independent() {
    let a = stable_callsite_hash("redis::RedisStore::get_key");
    let b = stable_callsite_hash("redis::RedisStore::get_key");
    assert_eq!(a, b, "syntax hash must be deterministic");

    let record_time = stable_callsite_hash("redis::RedisStore::get_key");
    let replay_time_after_edits_shifted_lines =
        stable_callsite_hash("redis::RedisStore::get_key");
    assert_eq!(
        record_time, replay_time_after_edits_shifted_lines,
        "syntax hash must survive source line shifts"
    );

    assert_ne!(
        stable_callsite_hash("redis::RedisStore::get_key"),
        stable_callsite_hash("redis::RedisStore::set_key"),
        "distinct operations must hash differently"
    );
}

#[test]
fn boundary_path_event_resolves_at_rank_three() {
    let identity = boundary_identity("redis::RedisStore::get_key", 0);
    assert!(
        identity.syntax_hash.is_some(),
        "boundary identity must carry a syntax_hash"
    );

    let mut event = make_event(
        0,
        Some("corr-1"),
        "get_key",
        json(r#"{"key": "k1"}"#),
        json(r#"{"Ok": "v1"}"#),
        false,
    );
    event.boundary = "redis".into();
    event.callsite_identity = Some(identity.clone());
    assert!(
        event.callsite_identity.is_some(),
        "on-disk boundary event must carry Some(callsite_identity), not None"
    );

    let table = render_table(&[event]);
    let mut hook = LookupTableHook::from_table(table);

    let ambient = around(Some("corr-1"));
    let result = hook.try_replay_with_context(ReplayLookup {
        boundary: "redis",
        trait_name: "RedisStore",
        method_name: "get_key",
        args: &json(r#"{"key": "k1"}"#),
        callsite_identity: Some(&identity),
        caller_location: None,
    }, &ambient);
    assert_eq!(result, Some(json(r#"{"Ok": "v1"}"#)));

    let calls = hook.sink.handle();
    assert_eq!(calls.len(), 1);
    assert_eq!(
        calls[0].resolved_rank,
        Some(3),
        "boundary syntax-hash identity must resolve at rank 3"
    );
}

#[test]
fn boundary_path_resolves_at_rank_four_when_only_lexical_path_present() {
    let mut identity = boundary_identity("redis::RedisStore::get_key", 0);
    identity.syntax_hash = None; // force the rank-3 SyntacticHash address absent
    identity.source = CallsiteSource::LexicalPath;

    let mut event = make_event(
        0,
        Some("corr-1"),
        "get_key",
        json(r#"{"key": "k1"}"#),
        json(r#"{"Ok": "v1"}"#),
        false,
    );
    event.boundary = "redis".into();
    event.callsite_identity = Some(identity.clone());

    let table = render_table(&[event]);
    let mut hook = LookupTableHook::from_table(table);

    let ambient = around(Some("corr-1"));
    let result = hook.try_replay_with_context(ReplayLookup {
        boundary: "redis",
        trait_name: "RedisStore",
        method_name: "get_key",
        args: &json(r#"{"key": "k1"}"#),
        callsite_identity: Some(&identity),
        caller_location: None,
    }, &ambient);
    assert_eq!(result, Some(json(r#"{"Ok": "v1"}"#)));
    assert_eq!(
        hook.sink.handle()[0].resolved_rank,
        Some(4),
        "lexical-path-only identity must resolve at rank 4"
    );
}

#[test]
fn span_path_disambiguates_concurrent_same_callsite_calls() {
    let scope = "db::Store::update";
    let make = |logical: &str| CallsiteIdentity {
        version: 1,
        source: CallsiteSource::SyntacticHash,
        id: None,
        scope: Some(scope.to_owned()),
        occurrence: 0,
        caller_function: Some("crate::module".to_owned()),
        lexical_path: Some("crate::module".to_owned()),
        syntax_hash: Some(stable_callsite_hash(scope)),
        span_path: Some(logical.to_owned()),
    };
    let id_attempt = make("payments_core>update_payment_attempt");
    let id_intent = make("payments_core>update_payment_intent");
    let args = json(r#"{"id": 1}"#);

    let event = |gseq: u64, id: &CallsiteIdentity, result: &str| {
        let mut e = make_event(
            gseq,
            Some("c1"),
            "update",
            args.clone(),
            ok(result),
            false,
        );
        e.boundary = "db".into();
        e.callsite_identity = Some(id.clone());
        e
    };
    let table = render_table(&[
        event(0, &id_attempt, "attempt-row"),
        event(1, &id_intent, "intent-row"),
    ]);
    let mut hook = LookupTableHook::from_table(table);

    let ambient = around(Some("c1"));
    let mut replay = |id: &CallsiteIdentity| {
        hook.try_replay_with_context(ReplayLookup {
            boundary: "db",
            trait_name: "Store",
            method_name: "update",
            args: &args,
            callsite_identity: Some(id),
            caller_location: None,
        }, &ambient)
    };
    assert_eq!(
        replay(&id_intent),
        Some(json(r#"{"Ok": "intent-row"}"#)),
        "the intent call must get the INTENT row even though it replays first"
    );
    assert_eq!(
        replay(&id_attempt),
        Some(json(r#"{"Ok": "attempt-row"}"#)),
        "the attempt call must get the ATTEMPT row — NOT swapped by a shared \
         positional occurrence"
    );

    let calls = hook.sink.handle();
    assert!(
        calls
            .iter()
            .all(|c| c.resolved && c.resolved_rank == Some(2)),
        "both resolve at rank 2 (SpanPath), not a weaker positional fallback; \
         got resolved/rank = {:?}",
        calls
            .iter()
            .map(|c| (c.resolved, c.resolved_rank))
            .collect::<Vec<_>>()
    );
}

#[test]
fn callsite_occurrence_is_single_bump_sequence() {
    let ambient = around(None);
    let mut hook = ReplayHook::new(Vec::new(), ReplayConfig::default(), 100);
    let mut occ = || {
        hook.next_callsite_occurrence(Some("corr-1"), CallsiteSource::SyntacticHash, Some("redis::RedisStore::get_key"), &ambient)
    };
    assert_eq!(occ(), 0);
    assert_eq!(occ(), 1);
    assert_eq!(occ(), 2);

    assert_eq!(
        hook.next_callsite_occurrence(Some("corr-1"), CallsiteSource::SyntacticHash, Some("redis::RedisStore::set_key"), &ambient),
        0,
        "distinct scope must have an independent occurrence counter"
    );
}

#[test]
fn repeated_callsite_resolves_when_occurrence_is_rederived_on_replay() {
    let ambient = around(Some("corr-1"));
    let scope = "redis::RedisStore::get_key";
    let correlation = Some("corr-1");
    let args = json(r#"{"key": "k"}"#);

    let mut recorder = ReplayHook::new(Vec::new(), ReplayConfig::default(), 0);
    let mut events = Vec::new();
    for i in 0..3u64 {
        let occurrence = recorder.next_callsite_occurrence(correlation, CallsiteSource::SyntacticHash, Some(scope), &ambient);
        assert_eq!(occurrence, i as u32);
        let mut event = make_event(
            i,
            correlation,
            "get_key",
            args.clone(),
            ok(&format!("v{i}")),
            false,
        );
        event.boundary = "redis".into();
        event.callsite_identity = Some(boundary_identity(scope, occurrence));
        events.push(event);
    }

    let table = render_table(&events);
    let mut hook = LookupTableHook::from_table(table);

    for i in 0..3u64 {
        let occurrence = hook.next_callsite_occurrence(correlation, CallsiteSource::SyntacticHash, Some(scope), &ambient);
        assert_eq!(
            occurrence, i as u32,
            "replay-side occurrence must advance in lock-step with record"
        );
        let identity = boundary_identity(scope, occurrence);
        let result = hook.try_replay_with_context(ReplayLookup {
            boundary: "redis",
            trait_name: "RedisStore",
            method_name: "get_key",
            args: &args,
            callsite_identity: Some(&identity),
            caller_location: None,
        }, &ambient);
        assert_eq!(
            result,
            Some(ok(&format!("v{i}"))),
            "call #{i} (occurrence {occurrence}) must resolve to its recorded result"
        );
    }

    let calls = hook.sink.handle();
    assert_eq!(calls.len(), 3);
    assert!(
        calls.iter().all(|c| c.resolved),
        "all three repeated-callsite calls must resolve (no double-bump miss): {:?}",
        calls
            .iter()
            .map(|c| (c.resolved, c.resolved_rank))
            .collect::<Vec<_>>()
    );
}

fn macro_emitted_identity(
    scope: &str,
    lexical_path: &str,
    occurrence: u32,
) -> CallsiteIdentity {
    CallsiteIdentity {
        version: 1,
        source: CallsiteSource::SyntacticHash,
        id: None, // <-- macro ALWAYS sets id: None (see instrument.rs)
        scope: Some(scope.to_owned()),
        occurrence,
        caller_function: Some(lexical_path.to_owned()),
        lexical_path: Some(lexical_path.to_owned()),
        syntax_hash: Some(stable_callsite_hash(scope)),
        span_path: None,
    }
}

#[test]
fn repro_date_time_now_repeated_argless_calls_all_resolve() {
    let ambient = around(Some("corr-1"));
    let scope = "common_utils::date_time::now";
    let lexical = "common_utils::date_time";
    let correlation = Some("corr-1");
    let args = json("{}"); // argless boundary

    let identity_for = |occurrence: u32| {
        let mut id = macro_emitted_identity(scope, lexical, occurrence);
        id.syntax_hash = None; // no rank-3 — resolution must use rank-4 lexical
        id.source = CallsiteSource::LexicalPath;
        id
    };

    let mut recorder = ReplayHook::new(Vec::new(), ReplayConfig::default(), 0);
    let mut events = Vec::new();
    for i in 0..10u64 {
        let occurrence = recorder.next_callsite_occurrence(correlation, CallsiteSource::LexicalPath, Some(scope), &ambient);
        assert_eq!(occurrence, i as u32, "record occurrence must be 0..N");
        let mut event = make_event(
            i,
            correlation,
            "date_time::now",
            args.clone(),
            ok(&format!("t{i}")),
            false,
        );
        event.boundary = "time".into();
        event.callsite_identity = Some(identity_for(occurrence));
        events.push(event);
    }

    let table = render_table(&events);
    let mut hook = LookupTableHook::from_table(table);

    for _ in 0..10u64 {
        let occurrence = hook.next_callsite_occurrence(correlation, CallsiteSource::LexicalPath, Some(scope), &ambient);
        let identity = identity_for(occurrence);
        let result = hook.try_replay_with_context(ReplayLookup {
            boundary: "time",
            trait_name: "Time",
            method_name: "date_time::now",
            args: &args,
            callsite_identity: Some(&identity),
            caller_location: None,
        }, &ambient);
        assert_eq!(
            result,
            Some(ok(&format!("t{occurrence}"))),
            "repeated argless call (occurrence {occurrence}) must resolve at rank 4"
        );
    }

    let calls = hook.sink.handle();
    assert_eq!(calls.len(), 10);
    assert!(
        calls
            .iter()
            .all(|c| c.resolved && c.resolved_rank == Some(4)),
        "all repeated argless calls must resolve at rank 4 (order-independent); \
         got resolved/rank = {:?}",
        calls
            .iter()
            .map(|c| (c.resolved, c.resolved_rank))
            .collect::<Vec<_>>()
    );
}

#[test]
fn lookup_table_hook_prefers_stronger_rank_over_sequence() {
    let ambient = around(None);
    let args = json("{}");
    let table = LookupTable {
        recording_id: "rec-1".to_owned(),
        policy_version: 1,
        entries: vec![
            entry_with(
                None,
                Address::Sequence {
                    boundary: "redis".to_owned(),
                    method: "m".to_owned(),
                    request_sequence: 0,
                },
                &args,
                0,
                Json::text("by_sequence"),
                1,
            ),
            entry_with(
                None,
                explicit("stable-X"),
                &args,
                0,
                Json::text("by_explicit"),
                2,
            ),
        ],
    };
    let mut hook = LookupTableHook::from_table(table);

    let identity = explicit_identity("stable-X");
    let value = hook.try_replay_with_context(ReplayLookup {
        boundary: "redis",
        trait_name: "S",
        method_name: "m",
        args: &args,
        callsite_identity: Some(&identity),
        caller_location: None,
    }, &ambient);
    assert_eq!(value, Some(Json::text("by_explicit")));
    assert_eq!(hook.sink.handle()[0].resolved_rank, Some(1));
}

#[test]
fn rekeyed_call_now_misses() {
    let ambient = around(None);
    let recorded_args = json(r#"{"id": "pi_recorded"}"#);
    let table = LookupTable {
        recording_id: "rec-1".to_owned(),
        policy_version: 1,
        entries: vec![entry_with(
            None,
            explicit("find_pi"),
            &recorded_args,
            0,
            json(r#"{"Ok": "row_recorded"}"#),
            1,
        )],
    };
    let mut hook = LookupTableHook::from_table(table);

    let rekeyed_args = json(r#"{"id": "pi_doubled"}"#);
    let identity = explicit_identity("find_pi");
    let value = hook.try_replay_with_context(ReplayLookup {
        boundary: "storage",
        trait_name: "PaymentIntentInterface",
        method_name: "find_payment_intent_by_id",
        args: &rekeyed_args,
        callsite_identity: Some(&identity),
        caller_location: None,
    }, &ambient);
    assert_eq!(
        value, None,
        "a re-keyed call now misses instead of serving a stale value"
    );
    assert!(
        !hook.sink.handle()[0].resolved,
        "the miss is observed as unresolved (→ NovelCall + fail-stop at the seam)"
    );
}

#[test]
fn lookup_table_hook_record_emits_observed_http_finalizer_only() {
    let empty = LookupTable {
        recording_id: "rec-1".to_owned(),
        policy_version: 1,
        entries: vec![],
    };
    let mut hook = LookupTableHook::from_table(empty);

    let mut non_finalizer = make_event(
        6,
        Some("corr-1"),
        "set_key",
        json(r#"{"k": "v"}"#),
        json(r#"{"ok": true}"#),
        false,
    );
    non_finalizer.boundary = "redis".to_owned();
    hook.record(non_finalizer);

    let mut finalizer = make_event(
        7,
        Some("corr-1"),
        "finalize",
        json(r#"{"path": "/payments/confirm"}"#),
        json(r#"{"status": 200}"#),
        false,
    );
    finalizer.boundary = "http_incoming".to_owned();
    finalizer.trait_name = "router_env::request".to_owned();
    finalizer.timestamp_ns = 1_000;
    finalizer.end_timestamp_ns = Some(12_345);
    finalizer.graph_node_id = Some(42);
    hook.record(finalizer);

    let calls = hook.sink.handle();
    assert_eq!(calls.len(), 1, "non-finalizer records stay ignored");
    let call = &calls[0];
    assert_eq!(call.correlation_id.as_deref(), Some("corr-1"));
    assert_eq!(call.boundary, "http_incoming");
    assert_eq!(call.method_name, "finalize");
    assert!(!call.resolved);
    assert_eq!(call.timestamp_ns, 1_000);
    assert_eq!(call.end_timestamp_ns, Some(12_345));
    assert_eq!(call.graph_node_id, Some(42));
    assert_eq!(
        call.observed_result,
        Some(json(r#"{"status": 200}"#))
    );
    assert_eq!(call.recorded_result, None);
}

#[test]
fn replay_strategy_maps_to_execute_mode() {
    assert_eq!(
        replay_strategy_to_execute_mode(ReplayStrategy::Execute),
        ExecuteMode::Execute
    );
    assert_eq!(
        replay_strategy_to_execute_mode(ReplayStrategy::Substitute),
        ExecuteMode::Lookup
    );
}

#[test]
fn declared_execute_is_honored_on_any_replay_hook() {
    let ambient = around(None);
    let empty = LookupTable {
        recording_id: "r".to_owned(),
        policy_version: 1,
        entries: vec![],
    };
    let hook = LookupTableHook::from_table(empty);
    let spec = BoundarySpec::with_semantics(
        "redis",
        "Cache",
        "get",
        BoundarySemantics {
            replay_strategy: ReplayStrategy::Execute,
            kind: Some("redis".to_string()),
            declaration: Some(
                BoundaryDeclaration::default().effect(EffectKind::Redis),
            ),
        },
    );
    assert_eq!(
        boundary_execute_mode_for(&hook, &spec, &ambient),
        ExecuteMode::Execute,
        "a declared Execute site is honored on a replay hook"
    );
}

#[test]
fn declared_knob_drives_routing() {
    let ambient = around(None);
    let empty = LookupTable {
        recording_id: "r".to_owned(),
        policy_version: 1,
        entries: vec![],
    };
    let hook = LookupTableHook::from_table(empty);

    let execute = BoundarySpec::with_semantics(
        "redis",
        "Cache",
        "get_key",
        BoundarySemantics {
            replay_strategy: ReplayStrategy::Execute,
            kind: Some("redis".to_string()),
            declaration: Some(
                BoundaryDeclaration::default().effect(EffectKind::Redis),
            ),
        },
    );
    assert_eq!(
        boundary_execute_mode_for(&hook, &execute, &ambient),
        ExecuteMode::Execute,
        "declared Execute → Execute"
    );

    let substitute = BoundarySpec::with_semantics(
        "redis",
        "Cache",
        "get_ttl",
        BoundarySemantics {
            replay_strategy: ReplayStrategy::Substitute,
            kind: Some("redis".to_string()),
            declaration: Some(
                BoundaryDeclaration::default().effect(EffectKind::Redis),
            ),
        },
    );
    assert_eq!(
        boundary_execute_mode_for(&hook, &substitute, &ambient),
        ExecuteMode::Lookup,
        "declared Substitute → Lookup"
    );
}

#[test]
fn declared_execute_routes_through_runtime_hook_wrapper() {
    let ambient = around(None);
    let empty = LookupTable {
        recording_id: "r".to_owned(),
        policy_version: 1,
        entries: vec![],
    };
    let inner = LookupTableHook::from_table(empty);
    let runtime = RuntimeHook::LookupReplay(inner);

    let spec = BoundarySpec::with_semantics(
        "redis",
        "router::eu_settlement",
        "eu_settlement_read",
        BoundarySemantics {
            replay_strategy: ReplayStrategy::Execute,
            kind: None,
            declaration: None,
        },
    );
    assert_eq!(
        boundary_execute_mode_for(&runtime, &spec, &ambient),
        ExecuteMode::Execute,
        "a declared Execute boundary must EXECUTE through the RuntimeHook wrapper"
    );

    let inner_default = LookupTableHook::from_table(LookupTable {
        recording_id: "r".to_owned(),
        policy_version: 1,
        entries: vec![],
    });
    let runtime_default = RuntimeHook::LookupReplay(inner_default);
    assert_eq!(
        boundary_execute_mode_for(&runtime_default, &spec, &ambient),
        ExecuteMode::Execute,
        "declared Execute is honored through the wrapper"
    );
}

#[test]
fn hook_execute_shadow_emits_observation_with_real_result() {
    let ambient = around(None);
    let table = LookupTable {
        recording_id: "rec-shadow".to_owned(),
        policy_version: 1,
        entries: vec![entry_with(
            None,
            Address::Sequence {
                boundary: "redis".to_owned(),
                method: "incr".to_owned(),
                request_sequence: 0,
            },
            &json(r#"["counter"]"#),
            0,
            json("2"), // recorded baseline result
            7,
        )],
    };
    let mut hook = LookupTableHook::from_table(table);

    let args = json(r#"["counter"]"#);
    let query = ReplayLookup {
        boundary: "redis",
        trait_name: "RedisStore",
        method_name: "incr",
        args: &args,
        callsite_identity: None,
        caller_location: None,
    };

    let token = hook.execute_shadow_peek(query, &ambient).expect("peek token");
    hook.execute_shadow_observe(token, json("3"));

    let calls = hook.sink.handle();
    assert_eq!(calls.len(), 1, "one shadow observation emitted");
    let call = &calls[0];
    assert_eq!(call.provenance, Provenance::Shadow);
    assert_eq!(call.recorded_result, Some(json("2")));
    assert_eq!(call.observed_result, Some(json("3")));
}

#[test]
fn novel_execute_call_surfaces_as_novel_not_swallowed_seed_gap() {
    let ambient = around(None);
    let table = LookupTable {
        recording_id: "rec-novel".to_owned(),
        policy_version: 1,
        entries: vec![],
    };
    let mut hook = LookupTableHook::from_table(table);

    let args = json(r#"["extra_key"]"#);
    let query = ReplayLookup {
        boundary: "db",
        trait_name: "PI",
        method_name: "generic_find_one_core",
        args: &args,
        callsite_identity: None,
        caller_location: None,
    };

    let token = hook.execute_shadow_peek(query, &ambient).expect("peek token");
    hook.execute_shadow_observe(token, json(r#"{"id": "fresh"}"#));

    let calls = hook.sink.handle();
    assert_eq!(calls.len(), 1, "one observation emitted for the novel call");
    let call = &calls[0];
    assert!(
        !call.resolved,
        "a novel call has no recorded baseline → resolved == false"
    );
    assert_eq!(
        call.recorded_result, None,
        "no recorded baseline for a novel call"
    );
    assert!(
        !call.seed_gap,
        "a novel call (no recorded event) must NOT be flagged seed_gap — it is a \
         NovelCall, not a swallowed InconclusiveSeedGap (the extra-call regression)"
    );
}
