//! Keyed digests of captured values.

use deja_runtime::capture_key::{
    capture_key, install_capture_key, CaptureKey, CaptureKeySlot, DIGEST_PREFIX,
};
use deja_runtime::json::Json;

fn json(text: &str) -> Json {
    let value: serde_json::Value = serde_json::from_str(text).expect("a JSON text");
    json_of(&value)
}

fn json_of(value: &serde_json::Value) -> Json {
    match value {
        serde_json::Value::Null => Json::Null,
        serde_json::Value::Bool(b) => Json::Bool(*b),
        serde_json::Value::Number(n) => Json::Number(n.to_string()),
        serde_json::Value::String(s) => Json::String(s.clone()),
        serde_json::Value::Array(items) => Json::Array(items.iter().map(json_of).collect()),
        serde_json::Value::Object(members) => Json::Object(
            members.iter().map(|(name, member)| (name.clone(), json_of(member))).collect(),
        ),
    }
}

fn key(secret: &str) -> CaptureKey {
    CaptureKey::new(secret.as_bytes()).expect("non-empty")
}

#[test]
fn an_empty_secret_is_no_key() {
    assert!(CaptureKey::new(b"").is_none());
}

#[test]
fn a_digest_is_deterministic_under_one_key() {
    assert_eq!(key("k").digest(b"s", b"x"), key("k").digest(b"s", b"x"));
}

#[test]
fn a_digest_depends_on_the_key_the_tag_and_the_value() {
    let base = key("k").digest(b"s", b"x");
    assert_ne!(base, key("other").digest(b"s", b"x"));
    assert_ne!(base, key("k").digest(b"n", b"x"));
    assert_ne!(base, key("k").digest(b"s", b"y"));
}

#[test]
fn the_key_id_identifies_the_key_without_carrying_it() {
    assert_eq!(key("secret").id(), key("secret").id());
    assert_ne!(key("secret").id(), key("secret2").id());
    assert!(!key("secret").id().contains("secret"));
    assert_eq!(key("secret").id().len(), 16);
}

fn every_leaf_is_a_digest_or_null(value: &Json) -> bool {
    match value {
        Json::Null => true,
        Json::String(leaf) => leaf.starts_with(DIGEST_PREFIX),
        Json::Array(items) => items.iter().all(every_leaf_is_a_digest_or_null),
        Json::Object(members) => members.iter().all(|(_, v)| every_leaf_is_a_digest_or_null(v)),
        Json::Bool(_) | Json::Number(_) => false,
    }
}

#[test]
fn digesting_keeps_the_shape_and_drops_every_scalar() {
    let value = json(
        r#"{
            "email": "a@b.co",
            "flags": [true, 7, "x"],
            "nested": {"zip": "560001", "none": null}
        }"#,
    );
    let image = key("k").digest_leaves(&value);
    assert!(every_leaf_is_a_digest_or_null(&image), "{image:?}");
    let text = format!("{image:?}");
    assert!(!text.contains("a@b.co") && !text.contains("560001"), "{text}");
    match image.get("flags") {
        Some(Json::Array(items)) => assert_eq!(items.len(), 3),
        other => panic!("flags is {other:?}"),
    }
    assert!(image.get("nested").and_then(|n| n.get("none")).is_some_and(Json::is_null));
    assert!(image
        .get("email")
        .and_then(Json::as_str)
        .is_some_and(|d| d.starts_with(DIGEST_PREFIX)));
}

#[test]
fn a_value_swap_between_keys_is_not_hidden() {
    let k = key("k");
    let left = k.digest_leaves(&json(r#"{"a": 1, "b": 2}"#));
    let right = k.digest_leaves(&json(r#"{"a": 2, "b": 1}"#));
    assert_ne!(left, right);
}

#[test]
fn a_string_and_a_number_with_the_same_text_digest_differently() {
    let k = key("k");
    assert_ne!(k.digest_leaves(&Json::text("1")), k.digest_leaves(&json("1")));
}

#[test]
fn digesting_keeps_array_order() {
    let k = key("k");
    let forward = k.digest_leaves(&json(r#"["x", "y"]"#));
    let backward = k.digest_leaves(&json(r#"["y", "x"]"#));
    assert_ne!(forward, backward);
    match (forward, backward) {
        (Json::Array(f), Json::Array(b)) => assert_eq!(f[0], b[1]),
        other => panic!("{other:?}"),
    }
}

/// The digest is `h:` and the first half of the HMAC-SHA256 of the tag, a zero byte
/// and the bytes; the id is the start of the one of a fixed label.
#[test]
fn a_digest_is_the_keyed_hash_of_tag_and_bytes() {
    assert_eq!(
        key("Jefe").digest(b"s", b"x"),
        "h:01df1f85559f38d7d52ebde9992a6d81"
    );
    assert_eq!(key("Jefe").digest(b"s", b"x").len(), 34);
    assert_eq!(key("secret").id(), "a6cf37f9bb8fa296");
    assert_eq!(key("secret").id().len(), 16);
}

#[test]
fn a_slot_takes_one_key() {
    let mut slot = CaptureKeySlot::empty();
    assert!(capture_key(&slot).is_none());
    assert_eq!(install_capture_key(&mut slot, Some(b"")), Ok(()));
    assert!(capture_key(&slot).is_none(), "an empty secret is no key");

    let mut slot = CaptureKeySlot::empty();
    assert_eq!(install_capture_key(&mut slot, Some(b"secret")), Ok(()));
    assert_eq!(capture_key(&slot).map(CaptureKey::id), Some(key("secret").id()));
    assert_eq!(
        install_capture_key(&mut slot, Some(b"another")),
        Err("capture key already installed")
    );
    assert_eq!(capture_key(&slot).map(CaptureKey::id), Some(key("secret").id()));
}
