//! Captured values: what has no order is written in one.

use deja_runtime::args_hash::canonical_args_hash;
use deja_runtime::canonical::{
    carries_present_marker, is_present_marker, is_unordered_map, is_unordered_sequence,
    mark_if_ambiguous, read_option, Canonical, PRESENT_KEY,
};
use deja_runtime::captured::{
    finish_map, map_key, sort_canonically, sort_map_entries, to_value, to_value_or_null, Captured,
};
use deja_runtime::json::Json;

fn json(text: &str) -> Json {
    let value: serde_json::Value = serde_json::from_str(text).expect("a JSON text");
    json_of(&value)
}

fn json_of(value: &serde_json::Value) -> Json {
    match value {
        serde_json::Value::Null => Json::Null,
        serde_json::Value::Bool(b) => Json::Bool(*b),
        serde_json::Value::Number(n) => Json::Number(n.to_string()),
        serde_json::Value::String(s) => Json::String(s.clone()),
        serde_json::Value::Array(items) => Json::Array(items.iter().map(json_of).collect()),
        serde_json::Value::Object(members) => Json::Object(
            members.iter().map(|(name, member)| (name.clone(), json_of(member))).collect(),
        ),
    }
}

fn text(s: &str) -> Captured {
    Captured::Text(s.to_owned())
}

fn number(n: u64) -> Captured {
    Captured::Number(n.to_string())
}

fn texts(items: &[&str], unordered: bool) -> Captured {
    Captured::Sequence { items: items.iter().map(|s| text(s)).collect(), unordered }
}

fn counts(entries: &[(&str, u64)], unordered: bool) -> Captured {
    Captured::Keyed {
        entries: entries.iter().map(|(k, v)| (text(k), number(*v))).collect(),
        unordered,
    }
}

fn record(fields: Vec<(&str, Captured)>) -> Captured {
    Captured::Record {
        fields: fields.into_iter().map(|(name, value)| (name.to_owned(), value)).collect(),
    }
}

fn present(inner: Captured) -> Captured {
    Captured::Present(Box::new(inner))
}

fn keys_of(value: &Json) -> Vec<&str> {
    match value {
        Json::Object(members) => members.iter().map(|(name, _)| name.as_str()).collect(),
        other => panic!("no object: {other:?}"),
    }
}

#[test]
fn type_name_strings_are_what_this_module_matches_on() {
    assert!(is_unordered_sequence("std::collections::hash::set::HashSet<alloc::string::String>"));
    assert!(is_unordered_sequence("std::collections::hash::set::HashSet<u8>"));
    assert!(is_unordered_map("std::collections::hash::map::HashMap<alloc::string::String, u8>"));
    assert!(!is_unordered_map(
        "serde_json::map::Map<alloc::string::String, serde_json::value::Value>"
    ));
    assert!(!is_unordered_map("serde_json::value::Value"));
    assert!(is_unordered_sequence(
        "std::collections::hash::set::HashSet<alloc::string::String, std::hash::random::RandomState>"
    ));
    assert!(is_unordered_sequence("&std::collections::hash::set::HashSet<u8>"));

    assert!(!is_unordered_sequence("alloc::vec::Vec<u8>"));
    assert!(!is_unordered_sequence("alloc::collections::btree::set::BTreeSet<u8>"));
    assert!(!is_unordered_sequence(
        "alloc::collections::btree::map::BTreeMap<alloc::string::String, u8>"
    ));
    assert!(!is_unordered_sequence(
        "std::collections::hash::map::HashMap<alloc::string::String, u8>"
    ));
    assert!(!is_unordered_sequence("alloc::vec::Vec<MyHashSet>"));
}

fn nested(tags: &[&str], steps: &[&str]) -> Captured {
    record(vec![
        ("tags", texts(tags, true)),
        ("steps", texts(steps, false)),
        ("labels", counts(&[("b", 2), ("a", 1)], true)),
        ("ranked", counts(&[("x", 8), ("y", 9)], false)),
    ])
}

fn payload(tags: &[&str], steps: &[&str]) -> Captured {
    record(vec![
        (
            "nested",
            Captured::Sequence { items: vec![nested(tags, steps)], unordered: false },
        ),
        ("maybe", present(nested(tags, steps))),
        (
            "shape",
            Captured::Variant {
                name: "Named".to_owned(),
                inner: Box::new(record(vec![(
                    "inner",
                    Captured::Sequence {
                        items: vec![number(3), number(1), number(2)],
                        unordered: false,
                    },
                )])),
            },
        ),
        ("wrapper", number(7)),
        (
            "pair",
            Captured::Sequence { items: vec![number(1), text("one")], unordered: false },
        ),
        ("nothing", Captured::Null),
        ("text", text("t")),
        ("number", Captured::Number("1.5".to_owned())),
        ("flag", Captured::Bool(true)),
    ])
}

#[test]
fn a_payload_without_an_unordered_collection_is_byte_identical() {
    let value = record(vec![
        ("steps", texts(&["z", "a", "m"], false)),
        ("labels", counts(&[("a", 1), ("b", 2)], false)),
        ("ranked", counts(&[("y", 9)], false)),
        (
            "shape",
            Captured::Variant {
                name: "Tagged".to_owned(),
                inner: Box::new(Captured::Sequence {
                    items: vec![number(2), number(1)],
                    unordered: false,
                }),
            },
        ),
        ("wrapper", number(7)),
        (
            "pair",
            Captured::Sequence { items: vec![number(1), text("one")], unordered: false },
        ),
        (
            "bytes",
            Captured::Sequence { items: vec![number(3), number(1), number(2)], unordered: false },
        ),
        ("nothing", Captured::Null),
    ]);
    let plain = concat_members(&[
        ("steps", r#"["z","a","m"]"#),
        ("labels", r#"{"a":1,"b":2}"#),
        ("ranked", r#"{"y":9}"#),
        ("shape", r#"{"Tagged":[2,1]}"#),
        ("wrapper", "7"),
        ("pair", r#"[1,"one"]"#),
        ("bytes", "[3,1,2]"),
        ("nothing", "null"),
    ]);
    let after = to_value(&value).expect("canonical");
    assert_eq!(format!("{after:?}"), format!("{plain:?}"));
}

fn concat_members(members: &[(&str, &str)]) -> Json {
    Json::Object(members.iter().map(|(name, value)| ((*name).to_owned(), json(value))).collect())
}

#[test]
fn a_sequence_keeps_its_order() {
    assert_eq!(
        to_value(&texts(&["z", "a", "m"], false)),
        Some(json(r#"["z", "a", "m"]"#)),
    );
}

#[test]
fn an_unordered_collection_is_recorded_in_a_canonical_order() {
    let forward = texts(&["visa", "mastercard", "amex", "discover"], true);
    let backward = texts(&["discover", "amex", "mastercard", "visa"], true);
    assert_eq!(
        to_value(&forward),
        Some(json(r#"["amex", "discover", "mastercard", "visa"]"#)),
    );
    assert_eq!(to_value(&forward), to_value(&backward));
}

#[test]
fn a_nested_unordered_collection_is_canonicalised_at_its_own_depth() {
    let one = to_value(&payload(&["c", "a", "b"], &["z", "a"])).expect("canonical");
    let two = to_value(&payload(&["b", "c", "a"], &["z", "a"])).expect("canonical");
    assert_eq!(one, two, "same members, different insertion order");
    let first = match one.get("nested") {
        Some(Json::Array(items)) => &items[0],
        other => panic!("{other:?}"),
    };
    assert_eq!(first.get("tags"), Some(&json(r#"["a", "b", "c"]"#)));
    assert_eq!(
        one.get("maybe").and_then(|m| m.get("tags")),
        Some(&json(r#"["a", "b", "c"]"#))
    );
    assert_eq!(first.get("steps"), Some(&json(r#"["z", "a"]"#)));
}

#[test]
fn members_that_serialize_alike_are_both_kept() {
    assert_eq!(
        to_value(&texts(&["same", "same"], true)),
        Some(json(r#"["same", "same"]"#)),
    );
}

#[test]
fn two_equal_sets_now_hash_to_one_lookup_key() {
    let set = |unordered: bool, backward: bool| {
        let mut items: Vec<Captured> = (0..24).map(number).collect();
        if backward {
            items.reverse();
        }
        to_value(&Captured::Sequence { items, unordered }).expect("canonical")
    };
    assert_eq!(
        canonical_args_hash(&set(true, false)),
        canonical_args_hash(&set(true, true)),
        "canonicalised captures of one set must produce one key"
    );
    assert_ne!(
        canonical_args_hash(&set(false, false)),
        canonical_args_hash(&set(false, true)),
        "an uncanonicalised permutation is what moved the key"
    );
}

#[test]
fn a_shape_this_cannot_express_reports_what_serde_json_reports() {
    let map = Captured::Keyed {
        entries: vec![(
            Captured::Sequence { items: vec![number(1), number(2)], unordered: false },
            number(3),
        )],
        unordered: false,
    };
    assert_eq!(to_value(&map), None);
    assert_eq!(to_value_or_null(&map), Json::Null);
}

#[test]
fn map_entries_are_emitted_in_key_order() {
    let entries = vec![
        ("zeta".to_owned(), Json::from_u64(1)),
        ("alpha".to_owned(), Json::from_u64(2)),
        ("mid".to_owned(), Json::from_u64(3)),
    ];
    let sorted = sort_map_entries(&entries);
    let keys: Vec<&str> = sorted.iter().map(|(k, _)| k.as_str()).collect();
    assert_eq!(keys, ["alpha", "mid", "zeta"]);

    let map = counts(&[("zeta", 1), ("alpha", 2), ("mid", 3)], true);
    let value = to_value(&map).expect("canonical");
    assert_eq!(keys_of(&value), ["alpha", "mid", "zeta"]);
    assert_eq!(value, json(r#"{"zeta": 1, "alpha": 2, "mid": 3}"#));
}

#[test]
fn an_ordered_map_keeps_the_order_it_was_built_in() {
    let headers = counts(&[("date", 1), ("content-type", 1), ("accept-ranges", 1)], false);
    let value = to_value(&headers).expect("canonical");
    assert_eq!(keys_of(&value), ["date", "content-type", "accept-ranges"]);
}

#[test]
fn an_unordered_map_nested_in_an_ordered_one_is_still_sorted() {
    let value = to_value(&record(vec![
        ("ordered", counts(&[("zeta", 1), ("alpha", 2)], false)),
        ("unordered", counts(&[("zeta", 1), ("alpha", 2), ("mid", 3)], true)),
    ]))
    .expect("canonical");
    assert_eq!(keys_of(value.get("ordered").expect("a member")), ["zeta", "alpha"]);
    assert_eq!(keys_of(value.get("unordered").expect("a member")), ["alpha", "mid", "zeta"]);
}

#[test]
fn scalar_map_keys_capture_as_serde_json_captures_them() {
    let ints = Captured::Keyed {
        entries: vec![(number(1), text("a")), (number(2), text("b"))],
        unordered: false,
    };
    assert_eq!(to_value(&ints), Some(json(r#"{"1": "a", "2": "b"}"#)));
    let bools = Captured::Keyed {
        entries: vec![(Captured::Bool(false), number(0)), (Captured::Bool(true), number(1))],
        unordered: false,
    };
    assert_eq!(to_value(&bools), Some(json(r#"{"false": 0, "true": 1}"#)));
    assert_eq!(map_key(Json::Null), None);
}

#[test]
fn a_bare_null_still_decodes_as_absent() {
    assert_eq!(read_option(Json::Null), None);
}

#[test]
fn each_depth_of_a_nested_option_is_its_own_value() {
    let cases = [
        Captured::Null,
        present(Captured::Null),
        present(present(Captured::Null)),
        present(present(present(text("x")))),
    ];
    let captured: Vec<Json> =
        cases.iter().map(|case| to_value(case).expect("canonical")).collect();
    for (i, a) in captured.iter().enumerate() {
        for b in &captured[i + 1..] {
            assert_ne!(a, b, "two depths captured as one value");
        }
    }
    // Read back one option at a time.
    assert_eq!(read_option(captured[0].clone()), None);
    assert_eq!(read_option(captured[1].clone()), Some(Json::Null));
    let once = read_option(captured[2].clone()).expect("present");
    assert_eq!(read_option(once), Some(Json::Null));
    let once = read_option(captured[3].clone()).expect("present");
    let twice = read_option(once).expect("present");
    assert_eq!(read_option(twice), Some(Json::text("x")));
}

#[test]
fn a_present_value_that_is_not_null_records_as_it_always_did() {
    let row = record(vec![
        ("name", present(text("n"))),
        ("nested", present(present(number(3)))),
        ("missing", Captured::Null),
    ]);
    assert_eq!(
        to_value(&row),
        Some(json(r#"{"name": "n", "nested": 3, "missing": null}"#)),
    );
}

#[test]
fn a_map_shaped_like_the_marker_is_not_mistaken_for_one() {
    let lookalike = || Captured::Keyed {
        entries: vec![(text(PRESENT_KEY), Captured::Null)],
        unordered: false,
    };
    let plain = to_value(&lookalike()).expect("canonical");
    assert_eq!(plain, Json::Object(vec![(PRESENT_KEY.to_owned(), Json::Null)]));
    let inside = to_value(&present(lookalike())).expect("canonical");
    assert_eq!(read_option(inside), Some(plain));
}

/// A present nothing is told from an absent one wherever it stands.
#[test]
fn a_present_none_survives_at_any_position() {
    let cached = Captured::Variant {
        name: "Cached".to_owned(),
        inner: Box::new(present(Captured::Null)),
    };
    let rows = Captured::Sequence {
        items: vec![present(Captured::Null), Captured::Null, present(present(number(1)))],
        unordered: false,
    };
    let holder = record(vec![
        ("field", present(Captured::Null)),
        (
            "by_id",
            Captured::Keyed {
                entries: vec![(number(7), present(Captured::Null)), (number(9), Captured::Null)],
                unordered: false,
            },
        ),
        ("cached", cached),
        ("rows", rows),
        ("unit", present(Captured::Null)),
    ]);
    let value = to_value(&holder).expect("canonical");
    let marked = || Json::Object(vec![(PRESENT_KEY.to_owned(), Json::Null)]);
    assert_eq!(value.get("field"), Some(&marked()));
    assert_eq!(value.get("unit"), Some(&marked()));
    assert_eq!(value.get("by_id").and_then(|m| m.get("7")), Some(&marked()));
    assert_eq!(value.get("by_id").and_then(|m| m.get("9")), Some(&Json::Null));
    assert_eq!(value.get("cached").and_then(|v| v.get("Cached")), Some(&marked()));
    assert_eq!(
        value.get("rows"),
        Some(&Json::Array(vec![marked(), Json::Null, Json::from_u64(1)]))
    );
    assert!(carries_present_marker(&value));
    assert!(is_present_marker(&marked()));
}

#[test]
fn a_marker_is_put_only_where_it_is_needed() {
    assert_eq!(mark_if_ambiguous(Json::from_u64(1)), Json::from_u64(1));
    let once = mark_if_ambiguous(Json::Null);
    assert!(is_present_marker(&once));
    let twice = mark_if_ambiguous(once.clone());
    assert_ne!(twice, once);
    assert_eq!(read_option(twice), Some(once));
}

/// Members are sorted by the texts they are written as.
#[test]
fn members_are_sorted_by_their_texts() {
    let items = vec![json(r#""b""#), json("10"), json("9"), json(r#"{"a": 1}"#), json("null")];
    assert_eq!(
        sort_canonically(&items),
        vec![json(r#""b""#), json("10"), json("9"), json("null"), json(r#"{"a": 1}"#)],
    );
    let entries = vec![("b".to_owned(), Json::Null), ("a".to_owned(), Json::Null)];
    assert_eq!(keys_of(&finish_map(entries, true)), ["a", "b"]);
}

#[test]
fn what_a_type_says_of_its_order() {
    let set = Canonical::for_type("std::collections::hash::set::HashSet<u8>");
    assert!(set.unordered && !set.unordered_map);
    let map = Canonical::for_type("std::collections::hash::map::HashMap<u8, u8>");
    assert!(!map.unordered && map.unordered_map);
    let plain = Canonical::positional();
    assert!(!plain.unordered && !plain.unordered_map);
}
