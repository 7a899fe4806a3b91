//! The keys that the collections of a correlation are hashed with.

use deja_runtime::ambient::Ambient;
use deja_runtime::builder::CallLocation;
use deja_runtime::event::OperationKind;
use deja_runtime::hash_seed::{
    capture_keys, draw_and_record, draw_keys, reconstruct_keys, DejaRandomState, HashKeyMemo,
    HashKeys, KeyStep, SeededHasher, BOUNDARY, OPERATION,
};
use deja_runtime::json::Json;
use deja_runtime::recording::{events_in, RecordingHook};
use std::hash::{BuildHasher, Hasher};

/// The keys a collection gets that is made now, or none where it is left to
/// std.
fn keys_now(memo: &mut HashKeyMemo, correlation: Option<&str>) -> Option<HashKeys> {
    match (memo.step(correlation), correlation) {
        (KeyStep::Known(keys), _) => Some(keys),
        (KeyStep::Draw, Some(id)) => Some(memo.settle(id, draw_keys())),
        _ => None,
    }
}

#[test]
fn one_correlation_shares_one_key_pair() {
    let mut memo = HashKeyMemo::new();
    let first = keys_now(&mut memo, Some("corr-shared-pair")).expect("seeded");
    let second = keys_now(&mut memo, Some("corr-shared-pair")).expect("seeded");
    assert!(first == second);
}

#[test]
fn two_correlations_get_different_keys() {
    let mut memo = HashKeyMemo::new();
    let first = keys_now(&mut memo, Some("corr-distinct-a")).expect("seeded");
    let second = keys_now(&mut memo, Some("corr-distinct-b")).expect("seeded");
    assert!(first != second);
}

#[test]
fn outside_a_correlation_std_runs_verbatim() {
    let mut memo = HashKeyMemo::new();
    let first = DejaRandomState::for_keys(keys_now(&mut memo, None));
    let second = DejaRandomState::for_keys(keys_now(&mut memo, None));
    match (first, second) {
        (DejaRandomState::Std(a), DejaRandomState::Std(b)) => {
            let hash_with = |state: &std::hash::RandomState| {
                let mut hasher = state.build_hasher();
                hasher.write_u64(0xDEAD_BEEF);
                hasher.finish()
            };
            assert_ne!(hash_with(&a), hash_with(&b));
        }
        _ => panic!("outside a correlation nothing is seeded"),
    }
}

#[test]
fn the_installed_pair_is_the_pair_the_hasher_uses() {
    let chosen = HashKeys { k0: 0x0123_4567_89AB_CDEF, k1: 0xFEDC_BA98_7654_3210 };
    let mut memo = HashKeyMemo::new();
    memo.settle("corr-installed-pair", chosen);
    assert!(keys_now(&mut memo, Some("corr-installed-pair")) == Some(chosen));
    match DejaRandomState::for_keys(Some(chosen)) {
        DejaRandomState::Seeded(keys) => assert!(keys == chosen),
        DejaRandomState::Std(_) => panic!("a correlation is seeded"),
    }
}

#[test]
fn a_recorded_pair_reconstructs_and_a_malformed_one_fails() {
    let chosen = HashKeys { k0: 11, k1: 22 };
    match reconstruct_keys(&capture_keys(&chosen)) {
        Ok(keys) => assert!(keys == chosen),
        Err(why) => panic!("a well-formed image must rebuild: {why}"),
    }
    let half = Json::Object(vec![("k0".to_owned(), Json::from_u64(1))]);
    assert!(reconstruct_keys(&half).is_err());
}

#[test]
fn eviction_forgets_the_correlation() {
    let mut memo = HashKeyMemo::new();
    keys_now(&mut memo, Some("corr-evicted"));
    assert!(memo.memo_holds("corr-evicted"));
    memo.clear_hash_keys_for_correlation(Some("corr-evicted"));
    assert!(!memo.memo_holds("corr-evicted"));
}

#[test]
fn debug_masks_the_keys() {
    let rendered =
        HashKeys { k0: 0xAAAA_AAAA_AAAA_AAAA, k1: 0xBBBB_BBBB_BBBB_BBBB }.masked();
    assert!(!rendered.contains("aaaa") && !rendered.contains("12297829382473034410"));
    assert!(rendered.contains("***"), "the mask should be visible: {rendered}");
}

/// SipHash-1-3 under the keys 00..07 and 08..0f, of the bytes 00..0e, however
/// they are cut.
#[test]
fn a_seeded_hasher_is_siphash_under_its_keys() {
    let keys = HashKeys { k0: 0x0706_0504_0302_0100, k1: 0x0f0e_0d0c_0b0a_0908 };
    let bytes: Vec<u8> = (0..15).collect();
    let mut whole = SeededHasher::new(keys);
    whole.write(&bytes);
    assert_eq!(whole.finish(), 0xd320_d86d_2a51_9956);
    let mut cut = SeededHasher::new(keys);
    cut.write(&bytes[..4]);
    cut.write(&bytes[4..]);
    assert_eq!(cut.finish(), 0xd320_d86d_2a51_9956);
}

/// The first draw of a correlation goes on the recording, as the pair that was
/// drawn.
#[test]
fn a_draw_is_recorded_as_the_pair_it_gave() {
    let ambient = Ambient {
        correlation_id: Some("corr-drawn".to_owned()),
        decision: None,
        lineage: None,
        span_path: None,
        tracing_span_id: None,
        graph_node_id: None,
        process_run_id: None,
        now_ns: 1_000,
    };
    let mut hook = RecordingHook::with_run_id("run-1".to_owned());
    let caller = CallLocation { file: "tests/hash_seed.rs", line: 1, column: 1 };
    let keys = match draw_and_record(&mut hook, "corr-drawn", 0, caller, &ambient) {
        Ok(keys) => keys,
        Err(_) => panic!("a recorder never stops"),
    };
    let events = events_in(hook.take_records());
    assert_eq!(events.len(), 1);
    assert_eq!(events[0].boundary, BOUNDARY);
    assert_eq!(events[0].method_name, OPERATION);
    assert_eq!(events[0].correlation_id.as_deref(), Some("corr-drawn"));
    assert_eq!(events[0].kind.as_deref(), Some(BOUNDARY));
    assert_eq!(
        events[0].declaration.as_ref().and_then(|d| d.op),
        Some(OperationKind::Entropy),
    );
    assert_eq!(events[0].call_file, "tests/hash_seed.rs");
    assert_eq!((events[0].call_line, events[0].call_column), (1, 1));
    assert!(events[0].end_timestamp_ns > Some(events[0].timestamp_ns));
    match reconstruct_keys(&events[0].result) {
        Ok(recorded) => assert!(recorded == keys),
        Err(why) => panic!("{why}"),
    }
}
