//! Why a replay finds what was recorded: whoever numbers the same calls in the
//! same order gives them the same keys, and no two calls share one.

use vstd::prelude::*;
use crate::ambient::{Ambient, ReplayLookup};
use crate::args_hash::exact_hash;
use crate::event::CallsiteIdentity;
use crate::fnv::FNV_OFFSET_BASIS;
use crate::graph::next_number;
use crate::json::JsonView;
use crate::lookup::{
    address_list, addresses_stand_by_rank, identity_value, times, AddressView, KeyStamper,
    LocationView, LookupKeyView, StampKeyView,
};
use crate::recording::RecordingHook;
use crate::lookup_hook::{last_entry, place, LookupEntry, LookupTableHook};

verus! {

/// A call, as it is addressed.
pub struct CallView {
    pub correlation_id: Option<Seq<char>>,
    pub bucket_id: Option<Seq<char>>,
    pub fork_seq: u64,
    pub boundary: Seq<char>,
    pub method: Seq<char>,
    pub identity: Option<CallsiteIdentity>,
    pub location: Option<LocationView>,
    pub args_hash: u64,
}

/// A call that is looked up.
pub open spec fn call_of(query: ReplayLookup<'_>, ambient: Ambient) -> CallView {
    CallView {
        correlation_id: ambient.correlation_id.deep_view(),
        bucket_id: Some(ambient.task().bucket_id),
        fork_seq: ambient.task().fork_seq,
        boundary: query.boundary@,
        method: query.method_name@,
        identity: identity_value(query.callsite_identity),
        location: place(query),
        args_hash: exact_hash(FNV_OFFSET_BASIS, query.args@),
    }
}

/// How many calls a correlation has made.
pub open spec fn made(calls: Seq<CallView>, correlation_id: Option<Seq<char>>) -> nat
    decreases calls.len(),
{
    if calls.len() == 0 {
        0
    } else {
        made(calls.drop_last(), correlation_id) + (if calls.last().correlation_id
            == correlation_id {
            1nat
        } else {
            0nat
        })
    }
}

/// The addresses of a call behind others.
pub open spec fn addresses_after(history: Seq<CallView>, call: CallView) -> Seq<AddressView> {
    address_list(
        call.boundary,
        call.method,
        call.identity,
        call.location,
        made(history, call.correlation_id) as u64,
    )
}

/// Whether a call is numbered under a key, at one of its addresses.
pub open spec fn under(call: CallView, key: StampKeyView) -> bool {
    call.correlation_id == key.correlation_id && call.bucket_id == key.bucket_id && call.args_hash
        == key.args_hash
}

/// How often calls were numbered under a key.
pub open spec fn tally(calls: Seq<CallView>, key: StampKeyView) -> nat
    decreases calls.len(),
{
    if calls.len() == 0 {
        0
    } else {
        tally(calls.drop_last(), key) + (if under(calls.last(), key) {
            times(addresses_after(calls.drop_last(), calls.last()), key.address)
        } else {
            0
        })
    }
}

/// What the occurrences of a call at one of its addresses are numbered under.
pub open spec fn stamp_key(call: CallView, address: AddressView) -> StampKeyView {
    StampKeyView {
        correlation_id: call.correlation_id,
        bucket_id: call.bucket_id,
        address,
        args_hash: call.args_hash,
    }
}

/// The keys of a call behind others.
pub open spec fn keys_after(history: Seq<CallView>, call: CallView) -> Seq<LookupKeyView> {
    let addresses = addresses_after(history, call);
    Seq::new(
        addresses.len(),
        |j: int|
            LookupKeyView {
                correlation_id: call.correlation_id,
                bucket_id: call.bucket_id,
                fork_seq: call.fork_seq,
                address: addresses[j],
                args_hash: call.args_hash,
                occurrence: (tally(history, stamp_key(call, addresses[j])) + times(
                    addresses.take(j),
                    addresses[j],
                )) as u32,
            },
    )
}

/// The keys of a call among others.
pub open spec fn keys_at(calls: Seq<CallView>, i: int) -> Seq<LookupKeyView> {
    keys_after(calls.take(i), calls[i])
}

/// Whether a stamper has numbered the calls.
pub open spec fn stamper_has_seen(stamper: KeyStamper, calls: Seq<CallView>) -> bool {
    forall|key: StampKeyView| #[trigger] stamper.count(key) == tally(calls, key)
}

/// Whether a replay has seen the calls.
pub open spec fn replay_has_seen(hook: LookupTableHook, calls: Seq<CallView>) -> bool {
    &&& stamper_has_seen(hook.stamper, calls)
    &&& forall|c: Option<Seq<char>>| #[trigger]
        hook.next_sequence.upcoming(c, 0) == made(calls, c)
}

/// A stamper gives a call the keys that the calls before it leave for it, and
/// has then seen one call more.
pub proof fn stampers_are_in_step(
    stamper: KeyStamper,
    after: KeyStamper,
    calls: Seq<CallView>,
    call: CallView,
)
    requires
        stamper_has_seen(stamper, calls),
        forall|key: StampKeyView| #[trigger]
            after.count(key) == stamper.count(key) + (if key.correlation_id == call.correlation_id
                && key.bucket_id == call.bucket_id && key.args_hash == call.args_hash {
                times(addresses_after(calls, call), key.address)
            } else {
                0
            }),
    ensures
        stamper.stamps(
            call.correlation_id,
            call.bucket_id,
            call.fork_seq,
            addresses_after(calls, call),
            call.args_hash,
        ) == keys_after(calls, call),
        stamper_has_seen(after, calls.push(call)),
{
    let addresses = addresses_after(calls, call);
    let stamps = stamper.stamps(
        call.correlation_id,
        call.bucket_id,
        call.fork_seq,
        addresses,
        call.args_hash,
    );
    assert forall|j: int| 0 <= j < addresses.len() implies stamps[j] == keys_after(
        calls,
        call,
    )[j] by {
        assert(stamper.count(stamp_key(call, addresses[j])) == tally(
            calls,
            stamp_key(call, addresses[j]),
        ));
    }
    assert(stamps =~= keys_after(calls, call));
    assert(calls.push(call).drop_last() =~= calls);
}

/// A replay looks a call up under the keys that the calls before it leave for
/// it, and has then seen one call more.
pub proof fn replays_are_in_step(
    hook: LookupTableHook,
    after: LookupTableHook,
    calls: Seq<CallView>,
    query: ReplayLookup<'_>,
    ambient: Ambient,
)
    requires
        replay_has_seen(hook, calls),
        hook.counts(query, ambient, after),
    ensures
        hook.keys(query, ambient) == keys_after(calls, call_of(query, ambient)),
        replay_has_seen(after, calls.push(call_of(query, ambient))),
{
    let call = call_of(query, ambient);
    assert(hook.addresses(query, ambient) == addresses_after(calls, call));
    stampers_are_in_step(hook.stamper, after.stamper, calls, call);
    assert(calls.push(call).drop_last() =~= calls);
}

/// Whether a recorder has numbered the calls in their requests.
pub open spec fn recorder_has_seen(hook: RecordingHook, calls: Seq<CallView>) -> bool {
    forall|c: Option<Seq<char>>| #[trigger] hook.upcoming_request(c) == made(calls, c)
}

/// A recorder gives a call the position in its request under which a replay
/// looks it up, and has then seen one call more.
pub proof fn recorders_are_in_step(
    hook: RecordingHook,
    after: RecordingHook,
    calls: Seq<CallView>,
    call: CallView,
)
    requires
        recorder_has_seen(hook, calls),
        hook.upcoming_request(call.correlation_id) < u64::MAX,
        forall|c: Option<Seq<char>>| #[trigger]
            after.upcoming_request(c) == (if c == call.correlation_id {
                next_number(hook.upcoming_request(c))
            } else {
                hook.upcoming_request(c)
            }),
    ensures
        addresses_after(calls, call).last() == (AddressView::Sequence {
            boundary: call.boundary,
            method: call.method,
            request_sequence: hook.upcoming_request(call.correlation_id),
        }),
        recorder_has_seen(after, calls.push(call)),
{
    assert(hook.upcoming_request(call.correlation_id) == made(calls, call.correlation_id));
    assert(calls.push(call).drop_last() =~= calls);
}

proof fn times_behind(s: Seq<AddressView>, j: int)
    requires
        0 <= j < s.len(),
    ensures
        times(s.take(j), s[j]) < times(s, s[j]),
    decreases s.len(),
{
    if j == s.len() - 1 {
        assert(s.drop_last() =~= s.take(j));
    } else {
        times_behind(s.drop_last(), j);
        assert(s.drop_last().take(j) =~= s.take(j));
    }
}

proof fn times_is_bounded(s: Seq<AddressView>, a: AddressView)
    ensures
        times(s, a) <= s.len(),
    decreases s.len(),
{
    if s.len() > 0 {
        times_is_bounded(s.drop_last(), a);
    }
}

proof fn tally_is_bounded(calls: Seq<CallView>, key: StampKeyView)
    ensures
        tally(calls, key) <= 6 * calls.len(),
    decreases calls.len(),
{
    if calls.len() > 0 {
        let history = calls.drop_last();
        let call = calls.last();
        tally_is_bounded(history, key);
        addresses_stand_by_rank(
            call.boundary,
            call.method,
            call.identity,
            call.location,
            made(history, call.correlation_id) as u64,
        );
        times_is_bounded(addresses_after(history, call), key.address);
    }
}

proof fn tally_grows(calls: Seq<CallView>, i: int, k: int, key: StampKeyView)
    requires
        0 <= i <= k <= calls.len(),
    ensures
        tally(calls.take(i), key) <= tally(calls.take(k), key),
    decreases k - i,
{
    if i < k {
        tally_grows(calls, i, k - 1, key);
        assert(calls.take(k).drop_last() =~= calls.take(k - 1));
    }
}

proof fn later_calls_are_numbered_higher(calls: Seq<CallView>, i: int, j: int, k: int, l: int)
    requires
        6 * calls.len() + 6 <= u32::MAX,
        0 <= i < k < calls.len(),
        0 <= j < keys_at(calls, i).len(),
        0 <= l < keys_at(calls, k).len(),
    ensures
        keys_at(calls, i)[j] != keys_at(calls, k)[l],
{
    let first = addresses_after(calls.take(i), calls[i]);
    let second = addresses_after(calls.take(k), calls[k]);
    let a = first[j];
    let key = stamp_key(calls[i], a);
    if keys_at(calls, i)[j] == keys_at(calls, k)[l] {
        assert(second[l] == a);
        assert(stamp_key(calls[k], a) == key);
        tally_grows(calls, i + 1, k, key);
        assert(calls.take(i + 1).drop_last() =~= calls.take(i));
        assert(calls.take(i + 1).last() == calls[i]);
        assert(tally(calls.take(i + 1), key) == tally(calls.take(i), key) + times(first, a));
        times_behind(first, j);
        tally_is_bounded(calls.take(i), key);
        tally_is_bounded(calls.take(k), key);
        let c = calls[i];
        addresses_stand_by_rank(
            c.boundary,
            c.method,
            c.identity,
            c.location,
            made(calls.take(i), c.correlation_id) as u64,
        );
        let d = calls[k];
        addresses_stand_by_rank(
            d.boundary,
            d.method,
            d.identity,
            d.location,
            made(calls.take(k), d.correlation_id) as u64,
        );
        times_is_bounded(first.take(j), a);
        times_is_bounded(second.take(l), a);
        assert(6 * calls.take(i).len() <= 6 * calls.len());
        assert(false);
    }
}

/// No two calls of a history share a key, and no call has a key twice.
pub proof fn keys_belong_to_one_call(calls: Seq<CallView>, i: int, j: int, k: int, l: int)
    requires
        6 * calls.len() + 6 <= u32::MAX,
        0 <= i < calls.len(),
        0 <= k < calls.len(),
        0 <= j < keys_at(calls, i).len(),
        0 <= l < keys_at(calls, k).len(),
    ensures
        keys_at(calls, i)[j] == keys_at(calls, k)[l] ==> i == k && j == l,
{
    if i < k {
        later_calls_are_numbered_higher(calls, i, j, k, l);
    } else if k < i {
        later_calls_are_numbered_higher(calls, k, l, i, j);
    } else {
        let c = calls[i];
        addresses_stand_by_rank(
            c.boundary,
            c.method,
            c.identity,
            c.location,
            made(calls.take(i), c.correlation_id) as u64,
        );
        let addresses = addresses_after(calls.take(i), c);
        assert(keys_at(calls, i)[j].address == addresses[j]);
        assert(keys_at(calls, i)[l].address == addresses[l]);
    }
}

/// Whether the entries are the calls of a recording with their results: each
/// call under each of its keys, and nothing else.
pub open spec fn renders(
    entries: Seq<LookupEntry>,
    calls: Seq<CallView>,
    results: Seq<JsonView>,
) -> bool {
    &&& results.len() == calls.len()
    &&& forall|i: int, j: int|
        0 <= i < calls.len() && 0 <= j < keys_at(calls, i).len() ==> has_entry(
            entries,
            #[trigger] keys_at(calls, i)[j],
        )
    &&& forall|e: int|
        0 <= e < entries.len() ==> of_some_call(#[trigger] entries[e], calls, results)
}

/// Whether an entry stands under the key.
pub open spec fn has_entry(entries: Seq<LookupEntry>, key: LookupKeyView) -> bool {
    exists|e: int| 0 <= e < entries.len() && (#[trigger] entries[e]).key@ == key
}

/// Whether an entry holds the result of a call under a key of that call.
pub open spec fn of_some_call(
    entry: LookupEntry,
    calls: Seq<CallView>,
    results: Seq<JsonView>,
) -> bool {
    exists|i: int, j: int|
        0 <= i < calls.len() && 0 <= j < keys_at(calls, i).len() && entry.key@ == (
        #[trigger] keys_at(calls, i)[j]) && entry.result@ == results[i]
}

proof fn last_entry_stands_under_its_key(entries: Seq<LookupEntry>, key: LookupKeyView)
    requires
        has_entry(entries, key),
    ensures
        last_entry(entries, key) matches Some(entry) && entry.key@ == key && entries.contains(
            entry,
        ),
    decreases entries.len(),
{
    let e = choose|e: int| 0 <= e < entries.len() && (#[trigger] entries[e]).key@ == key;
    if entries.last().key@ != key {
        assert(entries.drop_last()[e].key@ == key);
        last_entry_stands_under_its_key(entries.drop_last(), key);
        let found = last_entry(entries.drop_last(), key)->0;
        let f = choose|f: int| 0 <= f < entries.drop_last().len() && entries.drop_last()[f] == found;
        assert(entries[f] == found);
    } else {
        assert(entries[entries.len() - 1] == entries.last());
    }
}

/// A replay that makes the calls of a recording in their order is given, for
/// each of them, the result that was recorded, at the call's most stable
/// address.
pub proof fn recorded_calls_are_found(
    hook: LookupTableHook,
    entries: Seq<LookupEntry>,
    calls: Seq<CallView>,
    results: Seq<JsonView>,
    i: int,
    query: ReplayLookup<'_>,
    ambient: Ambient,
)
    requires
        renders(entries, calls, results),
        forall|key: LookupKeyView| #[trigger] hook.table.at(key) == last_entry(entries, key),
        6 * calls.len() + 6 <= u32::MAX,
        0 <= i < calls.len(),
        replay_has_seen(hook, calls.take(i)),
        call_of(query, ambient) == calls[i],
    ensures
        hook.hit(query, ambient) matches Some((entry, rank)) && entry.result@ == results[i] && rank
            == keys_at(calls, i)[0].address.rank(),
{
    let c = calls[i];
    let keys = keys_at(calls, i);
    addresses_stand_by_rank(
        c.boundary,
        c.method,
        c.identity,
        c.location,
        made(calls.take(i), c.correlation_id) as u64,
    );
    assert(hook.addresses(query, ambient) == addresses_after(calls.take(i), c));
    assert(hook.keys(query, ambient) =~= keys) by {
        assert forall|j: int| 0 <= j < keys.len() implies hook.keys(query, ambient)[j]
            == keys[j] by {
            let a = addresses_after(calls.take(i), c)[j];
            assert(hook.stamper.count(stamp_key(c, a)) == tally(calls.take(i), stamp_key(c, a)));
        }
    }
    assert(has_entry(entries, keys_at(calls, i)[0]));
    last_entry_stands_under_its_key(entries, keys[0]);
    let entry = last_entry(entries, keys[0])->0;
    let e = choose|e: int| 0 <= e < entries.len() && entries[e] == entry;
    assert(of_some_call(entries[e], calls, results));
    let (k, l) = choose|k: int, l: int|
        0 <= k < calls.len() && 0 <= l < keys_at(calls, k).len() && entry.key@ == (
        #[trigger] keys_at(calls, k)[l]) && entry.result@ == results[k];
    keys_belong_to_one_call(calls, i, 0, k, l);
    assert(hook.table.at(keys[0]) == Some(entry));
}

/// A call with other arguments, in another correlation or in another lineage
/// bucket leaves the numbering of a call as it was, wherever it stands among
/// the calls before.
pub proof fn other_calls_do_not_count(
    before: Seq<CallView>,
    other: CallView,
    after: Seq<CallView>,
    key: StampKeyView,
)
    requires
        !under(other, key),
        !(key.address is Sequence),
    ensures
        tally(before + seq![other] + after, key) == tally(before + after, key),
    decreases after.len(),
{
    let with = before + seq![other] + after;
    let without = before + after;
    if after.len() == 0 {
        assert(with.drop_last() =~= before);
        assert(without =~= before);
        assert(with.last() == other);
    } else {
        other_calls_do_not_count(before, other, after.drop_last(), key);
        assert(with.drop_last() =~= before + seq![other] + after.drop_last());
        assert(without.drop_last() =~= before + after.drop_last());
        assert(with.last() == after.last() && without.last() == after.last());
        let call = after.last();
        let s = addresses_after(with.drop_last(), call);
        let t = addresses_after(without.drop_last(), call);
        assert(s.drop_last() =~= t.drop_last());
        position_aside(s, t, key.address);
    }
}

proof fn position_aside(s: Seq<AddressView>, t: Seq<AddressView>, a: AddressView)
    requires
        s.len() == t.len(),
        s.len() > 0,
        s.drop_last() == t.drop_last(),
        s.last() is Sequence,
        t.last() is Sequence,
        !(a is Sequence),
    ensures
        times(s, a) == times(t, a),
{
}

} // verus!
