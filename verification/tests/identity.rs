//! The identity of a call: what may be written another way.

use deja_runtime::args_hash::canonical_args_hash;
use deja_runtime::identity::{
    embedded_document, identity_applies, identity_args_hash, identity_differences, same,
    IdentityChange,
};
use deja_runtime::json::Json;

fn json(text: &str) -> Json {
    let value: serde_json::Value = serde_json::from_str(text).expect("a JSON text");
    json_of(&value)
}

fn json_of(value: &serde_json::Value) -> Json {
    match value {
        serde_json::Value::Null => Json::Null,
        serde_json::Value::Bool(b) => Json::Bool(*b),
        serde_json::Value::Number(n) => Json::Number(n.to_string()),
        serde_json::Value::String(s) => Json::String(s.clone()),
        serde_json::Value::Array(items) => Json::Array(items.iter().map(json_of).collect()),
        serde_json::Value::Object(members) => Json::Object(
            members.iter().map(|(name, member)| (name.clone(), json_of(member))).collect(),
        ),
    }
}

#[test]
fn every_array_is_a_multiset_and_multiplicity_counts() {
    for (a, b) in [
        (json(r#"["a", "b"]"#), json(r#"["b", "a"]"#)),
        (json("[1, 2, 3]"), json("[3, 1, 2]")),
        (json(r#"[100, 5, "USD"]"#), json(r#"[5, "USD", 100]"#)),
        (json(r#"["a", null]"#), json(r#"[null, "a"]"#)),
        (json(r#"[["k", "v"], ["x"]]"#), json(r#"[["x"], ["v", "k"]]"#)),
        (json(r#"[{"a": 1}, {"b": 2}]"#), json(r#"[{"b": 2}, {"a": 1}]"#)),
    ] {
        assert_eq!(identity_args_hash(&a), identity_args_hash(&b), "{a:?} {b:?}");
        assert!(identity_differences(&a, &b).is_some(), "{a:?} {b:?}");
    }
    let a = Json::text("a");
    let (twice, once, none) = (Json::Array(vec![a.clone(), a.clone()]), Json::Array(vec![a]), json("[]"));
    assert_ne!(identity_args_hash(&twice), identity_args_hash(&once));
    assert_ne!(identity_args_hash(&twice), identity_args_hash(&none));
    assert_ne!(identity_args_hash(&once), identity_args_hash(&none));
    assert_eq!(identity_differences(&twice, &once), None);
    let pair = |x: &str, y: &str| Json::Array(vec![Json::text(x), Json::text(x), Json::text(y)]);
    assert_ne!(
        identity_args_hash(&pair("a", "b")),
        identity_args_hash(&pair("b", "a")),
        "the multiplicity of each member counts, not only the set"
    );
}

#[test]
fn different_shapes_hash_apart() {
    let values = [
        json("null"),
        json("[]"),
        json("{}"),
        json("[[]]"),
        json("[{}]"),
        Json::text("a"),
        json(r#"["a"]"#),
        json(r#"[["a"]]"#),
        json(r#"{"a": null}"#),
        json(r#"{"a": []}"#),
        json("1"),
        json("1.0"),
        Json::text("1"),
        json("true"),
        json("false"),
        json(r#"{"k": "v"}"#),
        Json::text(r#"{"k":"v"}"#),
        json(r#"[["a"], ["a"]]"#),
        json(r#"[["a", "a"]]"#),
        json(r#"{"a": "b"}"#),
        json(r#"{"b": "a"}"#),
    ];
    for (i, a) in values.iter().enumerate() {
        for b in &values[i + 1..] {
            assert_ne!(identity_args_hash(a), identity_args_hash(b), "{a:?} vs {b:?}");
            assert!(!same(a, b), "{a:?} vs {b:?}");
        }
    }
}

#[test]
fn distinct_multisets_do_not_collide() {
    let pool = [
        Json::text("a"),
        Json::text("b"),
        json("1"),
        json("null"),
        json(r#"["a"]"#),
        json(r#"{"a": 1}"#),
    ];
    let mut seen: std::collections::HashMap<u64, Vec<usize>> = std::collections::HashMap::new();
    let mut count = 0;
    for len in 0..=4usize {
        let mut picks = vec![0usize; len];
        loop {
            if picks.windows(2).all(|w| w[0] <= w[1]) {
                let array =
                    Json::Array(picks.iter().map(|&i| pool[i].clone()).collect());
                if let Some(other) = seen.insert(identity_args_hash(&array), picks.clone()) {
                    panic!("{other:?} and {picks:?} collide");
                }
                count += 1;
            }
            let mut i = 0;
            while i < len {
                picks[i] += 1;
                if picks[i] < pool.len() {
                    break;
                }
                picks[i] = 0;
                i += 1;
            }
            if i == len {
                break;
            }
        }
    }
    assert_eq!(
        count, 210,
        "precondition: every multiset of up to four was hashed"
    );
}

#[test]
fn an_objects_key_order_is_never_read() {
    let (a, b) = (json(r#"{"x": 1, "y": [2, 3]}"#), json(r#"{"y": [3, 2], "x": 1}"#));
    assert_eq!(identity_args_hash(&a), identity_args_hash(&b));
    assert_eq!(
        identity_differences(&a, &b),
        Some(vec![IdentityChange::ArrayOrder("$.y".to_owned())])
    );
}

#[test]
fn a_permuted_array_is_one_identity_and_names_its_path() {
    let (r, o) = (
        json(r#"{"ids": ["a", "b", "c"]}"#),
        json(r#"{"ids": ["c", "a", "b"]}"#),
    );
    assert_eq!(identity_args_hash(&r), identity_args_hash(&o));
    assert_eq!(
        identity_differences(&r, &o),
        Some(vec![IdentityChange::ArrayOrder("$.ids".to_owned())])
    );
}

#[test]
fn a_document_in_a_string_is_one_identity_whatever_its_text_order() {
    let (r, o) = (
        Json::Object(vec![("b".to_owned(), Json::text(r#"{"a":1,"b":["x","y"]}"#))]),
        Json::Object(vec![("b".to_owned(), Json::text(r#"{"b":["y","x"],"a":1}"#))]),
    );
    assert_eq!(identity_args_hash(&r), identity_args_hash(&o));
    assert_eq!(
        identity_differences(&r, &o),
        Some(vec![IdentityChange::DocumentText("$.b".to_owned())])
    );
}

#[test]
fn a_nested_reordering_is_named_at_its_own_path() {
    let (r, o) = (
        json(r#"{"g": [{"s": ["a", "b"]}, {"s": ["c"]}]}"#),
        json(r#"{"g": [{"s": ["b", "a"]}, {"s": ["c"]}]}"#),
    );
    assert_eq!(
        identity_differences(&r, &o),
        Some(vec![IdentityChange::ArrayOrder("$.g[0].s".to_owned())])
    );
}

#[test]
fn an_enum_set_bound_to_a_placeholder_is_a_set() {
    let (r, o) = (
        json(r#"{"sql": "…", "inputs": {"binds": {"$1": ["Failed", "Succeeded"], "$2": "m1"}}}"#),
        json(r#"{"sql": "…", "inputs": {"binds": {"$1": ["Succeeded", "Failed"], "$2": "m1"}}}"#),
    );
    assert!(identity_applies(&r));
    assert_eq!(
        identity_differences(&r, &o),
        Some(vec![IdentityChange::ArrayOrder(
            "$.inputs.binds.$1".to_owned()
        )])
    );
}

#[test]
fn object_key_order_is_neither_identity_nor_reported() {
    let (r, o) = (json(r#"{"a": 1, "b": 2}"#), json(r#"{"b": 2, "a": 1}"#));
    assert!(!identity_applies(&o));
    assert_eq!(identity_differences(&r, &o), Some(vec![]));
}

#[test]
fn what_identity_still_refuses() {
    for (name, r, o) in [
        ("a changed member", json(r#"["a", "b"]"#), json(r#"["a", "c"]"#)),
        (
            "a form body's bytes in another order",
            json(r#"{"kind": "FormUrlEncodedRequestBody", "raw_bytes": [97, 61, 49, 38, 98, 61, 50]}"#),
            json(r#"{"kind": "FormUrlEncodedRequestBody", "raw_bytes": [97, 61, 50, 38, 98, 61, 49]}"#),
        ),
        (
            "a dropped duplicate",
            json(r#"["a", "a", "b"]"#),
            json(r#"["a", "b"]"#),
        ),
        (
            "a changed document",
            Json::text(r#"{"a":1}"#),
            Json::text(r#"{"a":2}"#),
        ),
        ("text is not a document", Json::text("b a"), Json::text("a b")),
        ("a scalar in a string is text", Json::text("1"), Json::text("1.0")),
        (
            "text is not an object",
            Json::text(r#"{"a":1}"#),
            json(r#"{"a": 1}"#),
        ),
    ] {
        assert_eq!(identity_differences(&r, &o), None, "{name}");
        assert_ne!(identity_args_hash(&r), identity_args_hash(&o), "{name}");
    }
}

#[test]
fn identity_applies_wherever_a_call_could_be_written_another_way() {
    for (value, applies) in [
        (json(r#"{"ids": ["a", "b"]}"#), true),
        (json(r#"{"ids": ["b", "a"]}"#), true),
        (Json::Object(vec![("b".to_owned(), Json::text(r#"{"a":1}"#))]), true),
        (json(r#"{"ids": ["a"]}"#), false),
        (json(r#"{"n": [2, 1]}"#), true),
        (json(r#"{"n": [2]}"#), false),
        (json(r#"{"a": 1, "s": "text"}"#), false),
        (
            json(r#"{"body": {"kind": "JsonRequestBody", "json": {"a": 1}, "text": "{\"a\":1}"}}"#),
            false,
        ),
        (
            json(r#"{"body": {"kind": "JsonRequestBody", "json": {"a": ["x", "y"]}}}"#),
            true,
        ),
        (
            json(r#"{"body": {"kind": "FormUrlEncodedRequestBody", "text": "a=1&b=2"}}"#),
            false,
        ),
    ] {
        assert_eq!(identity_applies(&value), applies, "{value:?}");
    }
}

#[test]
fn identity_agrees_with_the_exact_hash_and_adds_nothing_to_it() {
    let form = |text: &str| {
        Json::Object(vec![
            ("kind".to_owned(), Json::text("FormUrlEncodedRequestBody")),
            ("text".to_owned(), Json::text(text)),
        ])
    };
    let json_body = |text: &str| {
        Json::Object(vec![
            ("kind".to_owned(), Json::text("JsonRequestBody")),
            ("json".to_owned(), json(r#"{"a": 1}"#)),
            ("text".to_owned(), Json::text(text)),
            ("raw_bytes".to_owned(), json("[1, 2]")),
        ])
    };
    for (r, o) in [
        (form("a=1&b=2"), form("b=2&a=1")),
        (json_body("one"), json_body("another")),
    ] {
        assert_eq!(
            canonical_args_hash(&r),
            canonical_args_hash(&o),
            "precondition: the exact hash finds them the same"
        );
        assert_eq!(identity_differences(&r, &o), Some(vec![]));
    }
    let (r, o) = (form("a=1&b=2"), form("a=2&b=1"));
    assert_eq!(
        identity_differences(&r, &o),
        None,
        "different fields differ"
    );
}

#[test]
fn a_captured_request_body_is_read_as_its_document() {
    let body = |document: Json, text: &str| {
        Json::Object(vec![(
            "body".to_owned(),
            Json::Object(vec![
                ("kind".to_owned(), Json::text("JsonRequestBody")),
                ("json".to_owned(), document),
                ("text".to_owned(), Json::text(text)),
            ]),
        )])
    };
    let r = body(json(r#"{"ids": ["x", "y"]}"#), "one rendering");
    let o = body(json(r#"{"ids": ["y", "x"]}"#), "another rendering");
    assert_eq!(
        identity_differences(&r, &o),
        Some(vec![IdentityChange::ArrayOrder(
            "$.body.json.ids".to_owned()
        )])
    );
}

/// Only an array or an object in a text is a document.
#[test]
fn a_document_in_a_text_is_an_array_or_an_object() {
    assert_eq!(embedded_document(r#"{"a":[1,null]}"#), Some(json(r#"{"a":[1,null]}"#)));
    assert_eq!(embedded_document("[true]"), Some(json("[true]")));
    assert_eq!(embedded_document("7"), None);
    assert_eq!(embedded_document("{"), None);
    assert_eq!(embedded_document("text"), None);
}

/// What a change is reported at.
#[test]
fn a_change_names_its_path() {
    assert_eq!(IdentityChange::ArrayOrder("$.a".to_owned()).path(), "$.a");
    assert_eq!(IdentityChange::DocumentText("$.b".to_owned()).path(), "$.b");
}
