//! Seed plans and state keys.

use deja_runtime::db_key::{db_query_state_key, db_row_state_key, db_row_state_keys};
use deja_runtime::event::{
    BoundaryDeclaration, BoundaryEvent, EffectKind, Fidelity, OperationKind, Provenance,
    ReplayStrategy, ReturnSemantics, CURRENT_EVENT_SCHEMA_VERSION,
};
use deja_runtime::json::Json;
use deja_runtime::lineage::ROOT_TASK_ID;
use deja_runtime::recording::now_ns;
use deja_runtime::seed::{AmbientTemplate, ReadClassification, SeedOrigin, SeedPlan};
use deja_runtime::seed_plan::build_seed_plan;
use deja_runtime::state_key::{encode_hex_component, StateKey, STATE_KEY_V1_PREFIX};

fn json(text: &str) -> Json {
    let value: serde_json::Value = serde_json::from_str(text).expect("a JSON text");
    json_of(&value)
}

fn json_of(value: &serde_json::Value) -> Json {
    match value {
        serde_json::Value::Null => Json::Null,
        serde_json::Value::Bool(b) => Json::Bool(*b),
        serde_json::Value::Number(n) => Json::Number(n.to_string()),
        serde_json::Value::String(s) => Json::String(s.clone()),
        serde_json::Value::Array(items) => Json::Array(items.iter().map(json_of).collect()),
        serde_json::Value::Object(members) => Json::Object(
            members.iter().map(|(name, member)| (name.clone(), json_of(member))).collect(),
        ),
    }
}

fn make_event(
    req_seq: u64,
    correlation_id: Option<&str>,
    method: &str,
    args: Json,
    result: Json,
    is_error: bool,
) -> BoundaryEvent {
    BoundaryEvent {
        global_sequence: req_seq,
        request_sequence: req_seq,
        correlation_id: correlation_id.map(String::from),
        timestamp_ns: now_ns(),
        recording_run_id: None,
        graph_node_id: None,
        tracing_span_id: None,
        task_id: Some(ROOT_TASK_ID.to_string()),
        parent_task_id: None,
        task_bucket: Some(ROOT_TASK_ID.to_string()),
        bucket_id: Some(ROOT_TASK_ID.to_string()),
        fork_seq: Some(0),
        boundary: "storage".into(),
        trait_name: "PaymentStore".into(),
        method_name: method.into(),
        call_file: "test.rs".into(),
        call_line: 10,
        call_column: 5,
        receiver: None,
        request: args.clone(),
        args,
        response: result.clone(),
        result,
        is_error,
        duration_us: 100,
        event_schema_version: CURRENT_EVENT_SCHEMA_VERSION,
        callsite_identity: None,
        provenance: Provenance::default(),
        fidelity: Fidelity::default(),
        result_image: None,
        pre_image: None,
        read_set: Vec::new(),
        write_set: Vec::new(),
        value_digest: None,
        entropy_source: None,
        replay_strategy: ReplayStrategy::default(),
        kind: None,
        declaration: None,
        raw_draw: None,
        end_timestamp_ns: None,
    }
}

fn state_event(
    global_seq: u64,
    correlation_id: Option<&str>,
    boundary: &str,
    method: &str,
    args: Json,
    result: Json,
    read_set: &[&str],
    write_set: &[&str],
    is_error: bool,
) -> BoundaryEvent {
    let mut ev = make_event(global_seq, correlation_id, method, args, result, is_error);
    ev.global_sequence = global_seq;
    ev.boundary = boundary.into();
    ev.read_set = read_set.iter().map(|s| (*s).to_owned()).collect();
    ev.write_set = write_set.iter().map(|s| (*s).to_owned()).collect();
    ev
}

fn test_db_query_key(operation: &str, table: &str, sql: &str) -> String {
    db_query_state_key(operation, table, sql, &Json::Null).to_wire()
}

#[test]
fn state_key_v1_roundtrips_and_legacy_is_opaque() {
    let key = StateKey::DbRow {
        table: "payment_intent".to_owned(),
        pk_column: "payment_id".to_owned(),
        pk_value: "pay_123".to_owned(),
    };
    let wire = key.to_wire();
    assert_eq!(StateKey::parse(&wire).unwrap(), key);
    let old_three_field = format!(
        "{STATE_KEY_V1_PREFIX}:db_row:{}:{}",
        encode_hex_component("payment_attempt"),
        encode_hex_component("pay_123")
    );
    assert_eq!(
        StateKey::parse(&old_three_field).unwrap(),
        StateKey::Opaque(old_three_field),
        "old typed-v1 row keys without pk_column are advisory-only opaque keys"
    );
    assert_eq!(
        StateKey::parse("payment_intent:SELECT * FROM payment_intent")
            .unwrap()
            .db_table(),
        None,
        "legacy table:sql strings stay opaque"
    );
}

#[test]
fn db_row_state_keys_use_only_known_unique_pk_columns() {
    let keys = db_row_state_keys(
        "payment_attempt",
        &json(r#"[{"attempt_id": "att_1"}, {"payment_id": "pay_1"}, {"merchant_id": "merch_1"}, {"id": 42}]"#),
    );
    assert_eq!(
        keys,
        vec![StateKey::DbRow {
            table: "payment_attempt".to_owned(),
            pk_column: "attempt_id".to_owned(),
            pk_value: "att_1".to_owned(),
        }],
        "payment_attempt must group only by its real PK, not any *_id column"
    );
    assert!(
        db_row_state_key("unknown_table", &json(r#"{"id": 42}"#)).is_none(),
        "unknown tables fall back to DbQuery instead of assuming `id` is unique"
    );
}

#[test]
fn db_result_envelopes_emit_non_id_row_keys_and_keep_query_fallback() {
    let users_query = db_query_state_key(
        "find_user_by_id",
        "users",
        "SELECT * FROM \"users\" WHERE \"user_id\" = $1",
        &json(r#"["user_123"]"#),
    )
    .to_wire();
    let users_rows = json(r#"{"version": 1, "result": "Ok", "value": {"id": "not-the-user-pk", "user_id": "user_123", "merchant_id": "merch_ignored"}, "type_name": "User"}"#);
    let user_row_keys = db_row_state_keys("users", &users_rows);

    assert_eq!(
        user_row_keys,
        vec![StateKey::DbRow {
            table: "users".to_owned(),
            pk_column: "user_id".to_owned(),
            pk_value: "user_123".to_owned(),
        }],
        "users must key by user_id, never by the generic id field or merchant_id"
    );

    let merchant_rows = json(r#"{"version": 1, "result": "Ok", "value": [{"merchant_id": "merch_123", "key": {"inner": [1, 2, 3]}}], "type_name": "Vec<MerchantKeyStore>"}"#);
    assert_eq!(
        db_row_state_keys("merchant_key_store", &merchant_rows),
        vec![StateKey::DbRow {
            table: "merchant_key_store".to_owned(),
            pk_column: "merchant_id".to_owned(),
            pk_value: "merch_123".to_owned(),
        }],
        "merchant_key_store must key by merchant_id even though the table has no id column"
    );

    let mut read_set = vec![users_query.clone()];
    read_set.extend(user_row_keys.into_iter().map(|key| key.to_wire()));
    assert!(
        read_set.contains(&users_query),
        "row-exact keys augment the query fallback instead of replacing it"
    );
    assert!(
        read_set.iter().any(|key| matches!(
            StateKey::parse(key).unwrap(),
            StateKey::DbRow {
                ref table,
                ref pk_column,
                ref pk_value
            } if table == "users" && pk_column == "user_id" && pk_value == "user_123"
        )),
        "augmented read_set must carry the exact users row key"
    );
}

#[test]
fn seed_plan_built_from_explicit_read_set_and_result() {
    let events = vec![
        state_event(
            0,
            Some("c1"),
            "custom_store",
            "arbitrary_fetch",
            json(r#"["k"]"#),
            Json::text("v"),
            &["k"],
            &[],
            false,
        ),
        state_event(
            1,
            Some("c1"),
            "http_client",
            "request",
            json(r#"["url"]"#),
            json(r#"{"status": 200}"#),
            &[],
            &[],
            false,
        ),
    ];

    let plan = build_seed_plan(&events, Some("c1"));
    assert_eq!(plan.len(), 1);
    assert_eq!(
        plan.resolve("custom_store", "k").unwrap().value,
        Json::text("v")
    );

    assert!(
        !plan.contains("http_client", "url"),
        "an event without an explicit read_set seeds nothing"
    );
    assert_eq!(
        plan.resolve("custom_store", "k").unwrap().origin,
        SeedOrigin::Recording
    );
}

#[test]
fn seed_plan_prefers_pre_image_for_rmw_and_result_image_for_read_only_db_rows() {
    let update_key = StateKey::DbRow {
        table: "merchant_account".to_owned(),
        pk_column: "merchant_id".to_owned(),
        pk_value: "m1".to_owned(),
    }
    .to_wire();
    let read_key = StateKey::DbRow {
        table: "users".to_owned(),
        pk_column: "user_id".to_owned(),
        pk_value: "u1".to_owned(),
    }
    .to_wire();
    let pre_image = json(r#"{"merchant_id": "m1", "status": "before"}"#);
    let post_image = json(r#"{"merchant_id": "m1", "status": "after"}"#);
    let read_image = json(r#"{"user_id": "u1", "email": "u1@example.test"}"#);

    let mut rmw = state_event(
        0,
        Some("c1"),
        "db",
        "generic_update_with_results",
        json(r#"{"table": "merchant_account"}"#),
        json(r#"{"merchant_id": "m1", "status": "after"}"#),
        &[update_key.as_str()],
        &[update_key.as_str()],
        false,
    );
    rmw.pre_image = Some(pre_image.clone());
    rmw.result_image = Some(post_image);

    let mut read_only = state_event(
        1,
        Some("c1"),
        "db",
        "generic_find_one_core",
        json(r#"{"table": "users"}"#),
        json(r#"{"user_id": "u1", "email": "legacy@example.test"}"#),
        &[read_key.as_str()],
        &[],
        false,
    );
    read_only.result_image = Some(read_image.clone());

    let plan = build_seed_plan(&vec![rmw, read_only], Some("c1"));
    let update_seed = plan
        .resolve("db", update_key.as_str())
        .expect("self-referential UPDATE must seed the row it mutates");
    assert_eq!(
        update_seed.image,
        Some(pre_image),
        "RMW seeds must materialize the pre-image, not the post-write result image"
    );
    let read_seed = plan
        .resolve("db", read_key.as_str())
        .expect("read-only DB row must seed");
    assert_eq!(
        read_seed.image,
        Some(read_image),
        "read-only DB row seeds should use the explicit result image"
    );
}

#[test]
fn seed_plan_does_not_use_result_image_for_rmw_without_pre_image() {
    let update_key = StateKey::DbRow {
        table: "merchant_account".to_owned(),
        pk_column: "merchant_id".to_owned(),
        pk_value: "m2".to_owned(),
    }
    .to_wire();
    let mut rmw = state_event(
        0,
        Some("c1"),
        "db",
        "generic_update_with_results",
        json(r#"{"table": "merchant_account"}"#),
        json(r#"{"merchant_id": "m2", "status": "after"}"#),
        &[update_key.as_str()],
        &[update_key.as_str()],
        false,
    );
    rmw.result_image = Some(json(r#"{"merchant_id": "m2", "status": "after"}"#));

    let plan = build_seed_plan(&vec![rmw], Some("c1"));
    let update_seed = plan
        .resolve("db", update_key.as_str())
        .expect("self-referential UPDATE still seeds through legacy value");
    assert_eq!(
        update_seed.image, None,
        "RMW without a pre-image must not fall back to a post-write result image"
    );
    assert_eq!(
        update_seed.value,
        json(r#"{"merchant_id": "m2", "status": "after"}"#),
        "legacy raw value remains available for old tapes"
    );
}

#[test]
fn seed_plan_skips_update_of_explicitly_declared_created_table() {
    let insert_key = test_db_query_key(
        "generic_insert",
        "payment_intent",
        "INSERT INTO \"payment_intent\" VALUES (…) ",
    );
    let update_key = test_db_query_key(
        "generic_update_with_results",
        "payment_intent",
        "UPDATE \"payment_intent\" SET \"status\" = $1",
    );
    let mut create = state_event(
        0,
        Some("c1"),
        "db",
        "generic_insert",
        json(r#"{"table": "payment_intent"}"#),
        json(r#"[{"id": "p1"}]"#),
        &[],
        &[insert_key.as_str()],
        false,
    );
    create.declaration =
        Some(BoundaryDeclaration::default().operation(OperationKind::Create));
    let update = state_event(
        1,
        Some("c1"),
        "db",
        "generic_update_with_results",
        json(r#"{"table": "payment_intent"}"#),
        json(r#"[{"id": "p1"}]"#),
        &[update_key.as_str()],
        &[update_key.as_str()],
        false,
    );

    let plan = build_seed_plan(&vec![create, update], Some("c1"));
    assert!(
        !plan.contains("db", update_key.as_str()),
        "an UPDATE of an explicitly-created table must not seed (reconstructed via CREATE)"
    );
}

#[test]
fn seed_plan_declared_create_masks_later_db_reads_without_insert_name() {
    let create_key = test_db_query_key(
        "persist_payment_intent",
        "payment_intent",
        "INSERT INTO \"payment_intent\" VALUES (…) ",
    );
    let read_key = test_db_query_key(
        "find_payment_intent_by_id",
        "payment_intent",
        "SELECT * FROM \"payment_intent\" WHERE id = $1",
    );
    let mut create = state_event(
        0,
        Some("c1"),
        "db",
        "persist_payment_intent",
        json(r#"{"table": "payment_intent"}"#),
        json(r#"[{"id": "p1"}]"#),
        &[],
        &[create_key.as_str()],
        false,
    );
    create.declaration =
        Some(BoundaryDeclaration::default().operation(OperationKind::Create));
    let read_back = state_event(
        1,
        Some("c1"),
        "db",
        "find_payment_intent_by_id",
        json(r#"{"table": "payment_intent"}"#),
        json(r#"[{"id": "p1"}]"#),
        &[read_key.as_str()],
        &[],
        false,
    );

    let plan = build_seed_plan(&vec![create, read_back], Some("c1"));

    assert!(
        !plan.contains("db", read_key.as_str()),
        "a declared Create masks later DB reads of the created table even when the method name lacks `insert`"
    );
}

#[test]
fn seed_plan_legacy_insert_without_declaration_no_longer_masks_later_db_reads() {
    let insert_key = "payment_intent:INSERT INTO \"payment_intent\" VALUES (…)";
    let read_key = "payment_intent:SELECT * FROM \"payment_intent\" WHERE id = $1";
    let insert = state_event(
        0,
        Some("c1"),
        "db",
        "generic_insert",
        json(r#"{"table": "payment_intent"}"#),
        json(r#"[{"id": "p1"}]"#),
        &[],
        &[insert_key],
        false,
    );
    let read_back = state_event(
        1,
        Some("c1"),
        "db",
        "find_payment_intent_by_id",
        json(r#"{"table": "payment_intent"}"#),
        json(r#"[{"id": "p1"}]"#),
        &[read_key],
        &[],
        false,
    );

    let plan = build_seed_plan(&vec![insert, read_back], Some("c1"));

    assert!(
        plan.contains("db", read_key),
        "an undeclared legacy insert no longer uses method-name fallback masking"
    );
}

#[test]
fn seed_plan_declared_non_create_does_not_mask_later_db_reads() {
    let write_key = test_db_query_key(
        "generic_insert_named_but_declared_update",
        "payment_intent",
        "UPDATE \"payment_intent\" SET \"status\" = $1",
    );
    let read_key = test_db_query_key(
        "find_payment_intent_by_id",
        "payment_intent",
        "SELECT * FROM \"payment_intent\" WHERE id = $1",
    );
    let mut update = state_event(
        0,
        Some("c1"),
        "db",
        "generic_insert_named_but_declared_update",
        json(r#"{"table": "payment_intent"}"#),
        json(r#"[{"id": "p1", "status": "requires_capture"}]"#),
        &[],
        &[write_key.as_str()],
        false,
    );
    update.declaration =
        Some(BoundaryDeclaration::default().operation(OperationKind::Update));
    let later_read = state_event(
        1,
        Some("c1"),
        "db",
        "find_payment_intent_by_id",
        json(r#"{"table": "payment_intent"}"#),
        json(r#"[{"id": "p1", "status": "requires_capture"}]"#),
        &[read_key.as_str()],
        &[],
        false,
    );

    let plan = build_seed_plan(&vec![update, later_read], Some("c1"));

    assert!(
        plan.contains("db", read_key.as_str()),
        "a declared non-Create must not use the legacy `insert` method-name fallback"
    );
}

#[test]
fn seed_plan_uses_explicit_sets_not_method_names() {
    let read_named_write = state_event(
        0,
        Some("c1"),
        "custom_store",
        "get_key",
        json(r#"["mutated"]"#),
        Json::text("after"),
        &[],
        &["mutated"],
        false,
    );
    let write_named_read = state_event(
        1,
        Some("c1"),
        "custom_store",
        "set_key",
        json(r#"["precondition"]"#),
        Json::text("before"),
        &["precondition"],
        &[],
        false,
    );
    let post_write_read = state_event(
        2,
        Some("c1"),
        "custom_store",
        "get_key",
        json(r#"["mutated"]"#),
        Json::text("after"),
        &["mutated"],
        &[],
        false,
    );

    let plan = build_seed_plan(&vec![read_named_write, write_named_read, post_write_read],
        Some("c1"),
    );

    assert_eq!(
        plan.resolve("custom_store", "precondition").unwrap().value,
        Json::text("before"),
        "explicit read_set seeds even when the method name looks like a write"
    );
    assert!(
        !plan.contains("custom_store", "mutated"),
        "explicit write_set prevents a later read_set for the same key from seeding"
    );
}

#[test]
fn seed_plan_skips_declared_redis_raw_null_without_op_metadata() {
    let mut redis_null = state_event(
        0,
        Some("c1"),
        "redis",
        "get_key",
        json(r#"{"key": "merchant_key_store_default"}"#),
        Json::text("Null"),
        &["merchant_key_store_default"],
        &[],
        false,
    );
    redis_null.declaration =
        Some(BoundaryDeclaration::default().effect(EffectKind::Redis));

    let mut redis_string_null = state_event(
        1,
        Some("c1"),
        "redis",
        "get_key",
        json(r#"{"key": "literal_null_string"}"#),
        json(r#"{"String": "Null"}"#),
        &["literal_null_string"],
        &[],
        false,
    );
    redis_string_null.declaration =
        Some(BoundaryDeclaration::default().effect(EffectKind::Redis));

    let custom_null = state_event(
        2,
        Some("c1"),
        "custom_store",
        "get_key",
        json(r#"{"key": "custom"}"#),
        Json::text("Null"),
        &["custom"],
        &[],
        false,
    );

    let plan = build_seed_plan(&vec![redis_null, redis_string_null, custom_null], Some("c1"));

    assert!(
        !plan.contains("redis", "merchant_key_store_default"),
        "current Redis raw null (`DejaRedisValue::Null` => \"Null\") must materialize as absence, not a literal string"
    );
    assert_eq!(
        plan.resolve("redis", "literal_null_string").unwrap().value,
        json(r#"{"String": "Null"}"#),
        "a real Redis string named Null remains seedable through the tagged enum shape"
    );
    assert_eq!(
        plan.resolve("custom_store", "custom").unwrap().value,
        Json::text("Null"),
        "non-Redis string values named Null are not reinterpreted"
    );
}

#[test]
fn seed_plan_first_pre_write_read_wins() {
    let events = vec![
        state_event(
            0,
            Some("c1"),
            "custom_store",
            "load",
            json(r#"["k"]"#),
            Json::text("before"),
            &["k"],
            &[],
            false,
        ),
        state_event(
            1,
            Some("c1"),
            "custom_store",
            "store",
            json(r#"["k", "after"]"#),
            Json::text("after"),
            &[],
            &["k"],
            false,
        ),
        state_event(
            2,
            Some("c1"),
            "custom_store",
            "load",
            json(r#"["k"]"#),
            Json::text("after"),
            &["k"],
            &[],
            false,
        ),
    ];
    let plan = build_seed_plan(&events, Some("c1"));
    assert_eq!(
        plan.resolve("custom_store", "k").unwrap().value,
        Json::text("before"),
        "the precondition is the pre-write value, not the post-write read"
    );
}

#[test]
fn seed_plan_skips_error_reads() {
    let events = vec![state_event(
        0,
        Some("c1"),
        "redis",
        "get",
        json(r#"["k"]"#),
        json(r#"{"error": "boom"}"#),
        &["k"],
        &[],
        true,
    )];
    let plan = build_seed_plan(&events, Some("c1"));
    assert!(plan.is_empty(), "an error read seeds nothing");
}

#[test]
fn seed_plan_skips_structural_miss_reads_without_null_string_magic() {
    let mut optional_none = state_event(
        2,
        Some("c1"),
        "redis",
        "get_key",
        json(r#"["optional_missing"]"#),
        json(r#"{"Ok": null}"#),
        &["optional_missing"],
        &[],
        false,
    );
    optional_none.declaration =
        Some(BoundaryDeclaration::default().returning(ReturnSemantics::Optional));
    let events = vec![
        state_event(
            0,
            Some("c1"),
            "redis",
            "get_key",
            json(r#"["legacy_null_string"]"#),
            Json::text("Null"),
            &["legacy_null_string"],
            &[],
            false,
        ),
        state_event(
            1,
            Some("c1"),
            "db",
            "find_x",
            json(r#"["json_null_absent"]"#),
            Json::Null,
            &["json_null_absent"],
            &[],
            false,
        ),
        optional_none,
        state_event(
            3,
            Some("c1"),
            "redis",
            "get_key",
            json(r#"["present"]"#),
            json(r#"{"String": "v"}"#),
            &["present"],
            &[],
            false,
        ),
    ];
    let plan = build_seed_plan(&events, Some("c1"));
    assert!(
        plan.classify_read("redis", "legacy_null_string")
            .is_reconstructable(),
        "the legacy string \"Null\" is no longer a magic miss sentinel"
    );
    assert_eq!(
        plan.resolve("redis", "legacy_null_string").unwrap().value,
        Json::text("Null")
    );
    assert!(
        !plan
            .classify_read("db", "json_null_absent")
            .is_reconstructable(),
        "JSON null is a structural miss and must not be seeded"
    );
    assert!(
        !plan
            .classify_read("redis", "optional_missing")
            .is_reconstructable(),
        "an explicitly Optional successful null is a structural miss"
    );
    assert!(
        plan.classify_read("redis", "present").is_reconstructable(),
        "a real hit IS seeded"
    );
}

#[test]
fn seed_plan_is_correlation_scoped() {
    let events = vec![
        state_event(
            0,
            Some("c1"),
            "redis",
            "get",
            json(r#"["k"]"#),
            Json::text("c1val"),
            &["k"],
            &[],
            false,
        ),
        state_event(
            1,
            Some("c2"),
            "redis",
            "get",
            json(r#"["k"]"#),
            Json::text("c2val"),
            &["k"],
            &[],
            false,
        ),
    ];
    let plan = build_seed_plan(&events, Some("c1"));
    assert_eq!(plan.len(), 1);
    assert_eq!(
        plan.resolve("redis", "k").unwrap().value,
        Json::text("c1val")
    );
}

#[test]
fn classify_read_flags_seed_gap() {
    let events = vec![state_event(
        0,
        Some("c1"),
        "redis",
        "get",
        json(r#"["known"]"#),
        Json::text("v"),
        &["known"],
        &[],
        false,
    )];
    let plan = build_seed_plan(&events, Some("c1"));

    let hit = plan.classify_read("redis", "known");
    assert!(hit.is_reconstructable());
    match hit {
        ReadClassification::Reconstructable { value, origin } => {
            assert_eq!(value, Json::text("v"));
            assert_eq!(origin, SeedOrigin::Recording);
        }
        _ => panic!("expected reconstructable"),
    }

    let gap = plan.classify_read("redis", "never_seen");
    assert!(!gap.is_reconstructable());
    assert!(matches!(gap, ReadClassification::NotReconstructable { .. }));
}

#[test]
fn ambient_template_resolves_config_key() {
    let events = vec![state_event(
        0,
        Some("c1"),
        "redis",
        "get",
        json(r#"["settlement_rate_default"]"#),
        Json::text("0.10"),
        &["settlement_rate_default"],
        &[],
        false,
    )];
    let plan = build_seed_plan(&events, Some("c1"));

    assert!(!plan
        .classify_read("redis", "settlement_rate_premium")
        .is_reconstructable());

    let plan = plan.with_ambient(&AmbientTemplate::demo_defaults());
    let resolved = plan.classify_read("redis", "settlement_rate_premium");
    match resolved {
        ReadClassification::Reconstructable { value, origin } => {
            assert_eq!(value, Json::text("0.20"));
            assert_eq!(origin, SeedOrigin::Ambient);
        }
        _ => panic!("ambient template should resolve the premium key"),
    }
}

#[test]
fn ambient_does_not_clobber_recording() {
    let events = vec![state_event(
        0,
        Some("c1"),
        "redis",
        "get",
        json(r#"["settlement_rate_premium"]"#),
        Json::text("0.15"),
        &["settlement_rate_premium"],
        &[],
        false,
    )];
    let plan =
        build_seed_plan(&events, Some("c1")).with_ambient(&AmbientTemplate::demo_defaults());
    assert_eq!(
        plan.resolve("redis", "settlement_rate_premium")
            .unwrap()
            .value,
        Json::text("0.15"),
        "the observed value (0.15) wins over the ambient default (0.20)"
    );
    assert_eq!(
        plan.resolve("redis", "settlement_rate_premium")
            .unwrap()
            .origin,
        SeedOrigin::Recording
    );
}

#[test]
fn ambient_template_from_tsv() {
    let body = "\
# demo ambient config
redis\tsettlement_rate_premium\t0.20
redis\tcurrency\tusd
";
    let template = AmbientTemplate::from_tsv(body);
    assert_eq!(template.entries().len(), 2);
    let plan = SeedPlan::new().with_ambient(&template);
    assert_eq!(
        plan.resolve("redis", "settlement_rate_premium")
            .unwrap()
            .value,
        json("0.20"),
        "0.20 parses as a JSON number"
    );
    assert_eq!(
        plan.resolve("redis", "currency").unwrap().value,
        Json::text("usd"),
        "bare token becomes a JSON string"
    );
}
