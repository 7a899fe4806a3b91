//! Replay out of a lookup table: each call is looked up by its addresses, the
//! most stable first, and is observed.

use vstd::prelude::*;
use crate::ambient::{Ambient, ReplayLookup};
use crate::args_hash::{canonical_args_hash, exact_hash};
use crate::event::{BoundaryEvent, CallsiteSource, Provenance};
use crate::fnv::FNV_OFFSET_BASIS;
use crate::graph::{next_number, ExecutionGraphNode};
use crate::json::{Json, JsonView};
use crate::lineage::ROOT_TASK_ID;
use crate::lookup::{
    address_list, address_views, addresses_for, every_address_is_listed, identity_value,
    lookup_key_views, times, times_are_counted, AddressView, KeyStamper, LocationView, LookupKey,
    LookupKeyView, StampKeyView,
};
use crate::observed::{either, ExecuteShadowToken, ObservedCall, ObservedCallView};
use crate::table::{CallsiteKey, CallsiteKeyView, CorrelationKey, Table};
use crate::text::{opt_clone, opt_str, opt_string, text_eq};

verus! {

/// One recorded result, and the key it is found under.
#[derive(Debug, Clone)]
pub struct LookupEntry {
    pub key: LookupKey,
    pub result: Json,
    pub source_event_global_sequence: u64,
}

/// A recording, rendered for lookup.
#[derive(Debug, Clone)]
pub struct LookupTable {
    pub recording_id: String,
    pub policy_version: u32,
    pub entries: Vec<LookupEntry>,
}

impl LookupTable {
    /// The table of entries that came one by one.
    pub fn from_entries(entries: Vec<LookupEntry>) -> (r: LookupTable)
        ensures
            r.recording_id@ == Seq::<char>::empty(),
            r.policy_version == 1,
            r.entries == entries,
    {
        LookupTable { recording_id: String::new(), policy_version: 1, entries }
    }
}

/// The last entry under a key.
pub open spec fn last_entry(entries: Seq<LookupEntry>, key: LookupKeyView) -> Option<LookupEntry>
    decreases entries.len(),
{
    if entries.len() == 0 {
        None
    } else if entries.last().key@ == key {
        Some(entries.last())
    } else {
        last_entry(entries.drop_last(), key)
    }
}

/// What a replay observed, in order.
#[derive(Debug)]
pub struct InMemoryObservedSink {
    pub calls: Vec<ObservedCall>,
    pub nodes: Vec<ExecutionGraphNode>,
}

impl InMemoryObservedSink {
    /// Nothing observed yet.
    pub fn new() -> (r: InMemoryObservedSink)
        ensures
            r.calls@.len() == 0,
            r.nodes@.len() == 0,
    {
        InMemoryObservedSink { calls: Vec::new(), nodes: Vec::new() }
    }

    /// Takes a call.
    pub fn observed(&mut self, call: ObservedCall)
        ensures
            final(self).calls@ == old(self).calls@.push(call),
            final(self).nodes == old(self).nodes,
    {
        self.calls.push(call);
    }

    /// Takes a node of the execution graph.
    pub fn graph_node(&mut self, node: ExecutionGraphNode)
        ensures
            final(self).nodes@ == old(self).nodes@.push(node),
            final(self).calls == old(self).calls,
    {
        self.nodes.push(node);
    }

    /// The nodes so far.
    pub fn graph_nodes(&self) -> (r: &Vec<ExecutionGraphNode>)
        ensures
            *r == self.nodes,
    {
        &self.nodes
    }

    /// The calls so far.
    pub fn handle(&self) -> (r: &Vec<ObservedCall>)
        ensures
            *r == self.calls,
    {
        &self.calls
    }

    /// Hands the calls out and forgets them.
    pub fn drain(&mut self) -> (r: Vec<ObservedCall>)
        ensures
            r == old(self).calls,
            final(self).calls@.len() == 0,
            final(self).nodes == old(self).nodes,
    {
        let mut calls: Vec<ObservedCall> = Vec::new();
        std::mem::swap(&mut calls, &mut self.calls);
        calls
    }
}

/// The place of a call, as it is looked up by it.
pub open spec fn place(query: ReplayLookup<'_>) -> Option<LocationView> {
    match query.caller_location {
        Some(l) => Some(LocationView { file: l.file@, line: l.line, column: l.column }),
        None => None,
    }
}

/// The first entry that stands under one of the keys, and the rank of its
/// address.
pub open spec fn first_hit(table: Table<LookupKey, LookupEntry>, keys: Seq<LookupKeyView>) -> Option<
    (LookupEntry, u8),
>
    decreases keys.len(),
{
    if keys.len() == 0 {
        None
    } else {
        match table.at(keys[0]) {
            Some(entry) => Some((entry, keys[0].address.rank())),
            None => first_hit(table, keys.drop_first()),
        }
    }
}

/// What was found for a call, and what surrounds it.
#[derive(Debug)]
pub struct Resolution {
    pub correlation_id: Option<String>,
    pub task_id: Option<String>,
    pub parent_task_id: Option<String>,
    pub task_bucket: Option<String>,
    pub bucket_id: Option<String>,
    pub fork_seq: u64,
    pub location: Option<(String, u32, u32)>,
    pub graph_node_id: Option<u64>,
    pub resolved_rank: Option<u8>,
    pub source_event_global_sequence: Option<u64>,
    pub recorded_result: Option<Json>,
}

/// A call as it is observed: what it was, what surrounded it, what was found
/// for it in the recording, and what it gave.
pub open spec fn observation(
    query: ReplayLookup<'_>,
    ambient: Ambient,
    hit: Option<(LookupEntry, u8)>,
    observed_result: Option<JsonView>,
    provenance: Provenance,
) -> ObservedCallView {
    let task = ambient.task();
    let place = place(query);
    ObservedCallView {
        correlation_id: ambient.correlation_id.deep_view(),
        boundary: query.boundary@,
        trait_name: query.trait_name@,
        method_name: query.method_name@,
        args: query.args@,
        resolved: hit is Some,
        resolved_rank: match hit {
            Some((_, rank)) => Some(rank),
            None => None,
        },
        source_event_global_sequence: match hit {
            Some((entry, _)) => Some(entry.source_event_global_sequence),
            None => None,
        },
        timestamp_ns: ambient.now_ns,
        end_timestamp_ns: None,
        task_id: Some(task.task_id),
        parent_task_id: task.parent_task_id,
        task_bucket: Some(task.bucket_id),
        bucket_id: Some(task.bucket_id),
        fork_seq: task.fork_seq,
        call_file: match place {
            Some(l) => Some(l.file),
            None => None,
        },
        call_line: match place {
            Some(l) => Some(l.line),
            None => None,
        },
        call_column: match place {
            Some(l) => Some(l.column),
            None => None,
        },
        span_path: ambient.span_path.deep_view(),
        graph_node_id: ambient.graph_node_id,
        synthesized: false,
        real_impl_will_fail: false,
        recorded_result: hit_result(hit),
        observed_result,
        provenance,
        seed_gap: false,
    }
}

/// The recorded result that was found.
pub open spec fn hit_result(hit: Option<(LookupEntry, u8)>) -> Option<JsonView> {
    match hit {
        Some((entry, _)) => Some(entry.result@),
        None => None,
    }
}

impl Resolution {
    /// Whether a resolution says what surrounds a call and what was found.
    pub open spec fn says(
        self,
        query: ReplayLookup<'_>,
        ambient: Ambient,
        hit: Option<(LookupEntry, u8)>,
    ) -> bool {
        let task = ambient.task();
        &&& self.correlation_id.deep_view() == ambient.correlation_id.deep_view()
        &&& self.task_id.deep_view() == Some(task.task_id)
        &&& self.parent_task_id.deep_view() == task.parent_task_id
        &&& self.task_bucket.deep_view() == Some(task.bucket_id)
        &&& self.bucket_id.deep_view() == Some(task.bucket_id)
        &&& self.fork_seq == task.fork_seq
        &&& self.location is Some == query.caller_location is Some
        &&& match self.location {
            Some(l) => Some(LocationView { file: l.0@, line: l.1, column: l.2 }) == place(query),
            None => true,
        }
        &&& self.graph_node_id == ambient.graph_node_id
        &&& self.resolved_rank == (match hit {
            Some((_, rank)) => Some(rank),
            None => None,
        })
        &&& self.source_event_global_sequence == (match hit {
            Some((entry, _)) => Some(entry.source_event_global_sequence),
            None => None,
        })
        &&& self.recorded_result.deep_view() == hit_result(hit)
    }

    /// The recorded result that was found.
    pub fn recorded_result(&self) -> (r: Option<Json>)
        ensures
            r.deep_view() == self.recorded_result.deep_view(),
    {
        match &self.recorded_result {
            Some(result) => Some(result.clone()),
            None => None,
        }
    }

    /// The call as it is observed.
    pub fn into_observed_call(
        self,
        query: &ReplayLookup<'_>,
        ambient: &Ambient,
        observed_result: Option<Json>,
        provenance: Provenance,
    ) -> (r: ObservedCall)
        ensures
            forall|hit: Option<(LookupEntry, u8)>| #[trigger]
                self.says(*query, *ambient, hit) ==> r@ == observation(
                    *query,
                    *ambient,
                    hit,
                    observed_result.deep_view(),
                    provenance,
                ),
    {
        let resolved = self.recorded_result.is_some();
        let (call_file, call_line, call_column) = match self.location {
            Some((file, line, column)) => (Some(file), Some(line), Some(column)),
            None => (None, None, None),
        };
        ObservedCall {
            correlation_id: self.correlation_id,
            boundary: query.boundary.to_owned(),
            trait_name: query.trait_name.to_owned(),
            method_name: query.method_name.to_owned(),
            args: query.args.clone(),
            resolved,
            resolved_rank: self.resolved_rank,
            source_event_global_sequence: self.source_event_global_sequence,
            timestamp_ns: ambient.now_ns,
            end_timestamp_ns: None,
            task_id: self.task_id,
            parent_task_id: self.parent_task_id,
            task_bucket: self.task_bucket,
            bucket_id: self.bucket_id,
            fork_seq: self.fork_seq,
            call_file,
            call_line,
            call_column,
            span_path: opt_clone(&ambient.span_path),
            graph_node_id: self.graph_node_id,
            synthesized: false,
            real_impl_will_fail: false,
            recorded_result: self.recorded_result,
            observed_result,
            provenance,
            seed_gap: false,
        }
    }
}

/// The keys the entries stand under.
pub open spec fn entry_keys(entries: Seq<LookupEntry>) -> Set<LookupKeyView> {
    entries.map_values(|e: LookupEntry| e.key@).to_set()
}

proof fn last_entry_is_one_of_them(entries: Seq<LookupEntry>, key: LookupKeyView)
    ensures
        last_entry(entries, key) is Some <==> entry_keys(entries).contains(key),
    decreases entries.len(),
{
    let keys = entries.map_values(|e: LookupEntry| e.key@);
    if entries.len() > 0 {
        last_entry_is_one_of_them(entries.drop_last(), key);
        let fewer = entries.drop_last().map_values(|e: LookupEntry| e.key@);
        assert(fewer =~= keys.drop_last());
        if entries.last().key@ == key {
            assert(keys[keys.len() - 1] == key);
        }
        if fewer.contains(key) {
            let i = choose|i: int| 0 <= i < fewer.len() && fewer[i] == key;
            assert(keys[i] == key);
        }
        if keys.contains(key) && entries.last().key@ != key {
            let i = choose|i: int| 0 <= i < keys.len() && keys[i] == key;
            assert(fewer[i] == key);
        }
    }
}

/// Replays out of a lookup table, and observes every call.
pub struct LookupTableHook {
    pub table: Table<LookupKey, LookupEntry>,
    /// The next position of a call, for each correlation.
    pub next_sequence: Table<CorrelationKey, u64>,
    pub stamper: KeyStamper,
    pub global_counter: u64,
    pub callsite_occurrence: Table<CallsiteKey, u64>,
    pub graph_counter: u64,
    pub sink: InMemoryObservedSink,
}

impl LookupTableHook {
    /// The addresses of a call that is made now.
    pub open spec fn addresses(self, query: ReplayLookup<'_>, ambient: Ambient) -> Seq<
        AddressView,
    > {
        address_list(
            query.boundary@,
            query.method_name@,
            identity_value(query.callsite_identity),
            place(query),
            self.next_sequence.upcoming(ambient.correlation_id.deep_view(), 0),
        )
    }

    /// The keys of a call that is made now, the most stable address first.
    pub open spec fn keys(self, query: ReplayLookup<'_>, ambient: Ambient) -> Seq<LookupKeyView> {
        self.stamper.stamps(
            ambient.correlation_id.deep_view(),
            Some(ambient.task().bucket_id),
            ambient.task().fork_seq,
            self.addresses(query, ambient),
            exact_hash(FNV_OFFSET_BASIS, query.args@),
        )
    }

    /// What the table holds for a call that is made now.
    pub open spec fn hit(self, query: ReplayLookup<'_>, ambient: Ambient) -> Option<
        (LookupEntry, u8),
    > {
        first_hit(self.table, self.keys(query, ambient))
    }

    /// Whether the numbers of a call that is made now have not run out.
    pub open spec fn has_room(self, query: ReplayLookup<'_>, ambient: Ambient) -> bool {
        &&& self.next_sequence.upcoming(ambient.correlation_id.deep_view(), 0) < u64::MAX
        &&& self.stamper.has_room(
            ambient.correlation_id.deep_view(),
            Some(ambient.task().bucket_id),
            self.addresses(query, ambient),
            exact_hash(FNV_OFFSET_BASIS, query.args@),
        )
    }

    /// Whether `after` has counted one call more: one position more in its
    /// correlation, and one occurrence more under each of its addresses. The
    /// rest, but for what was observed, is as it was.
    pub open spec fn counts(
        self,
        query: ReplayLookup<'_>,
        ambient: Ambient,
        after: LookupTableHook,
    ) -> bool {
        let correlation = ambient.correlation_id.deep_view();
        &&& after.table == self.table
        &&& after.global_counter == self.global_counter
        &&& after.callsite_occurrence == self.callsite_occurrence
        &&& after.graph_counter == self.graph_counter
        &&& forall|c: Option<Seq<char>>| #[trigger]
            after.next_sequence.upcoming(c, 0) == self.next_sequence.upcoming(c, 0) + (if c
                == correlation {
                1int
            } else {
                0int
            })
        &&& forall|key: StampKeyView| #[trigger]
            after.stamper.count(key) == self.stamper.count(key) + (if key.correlation_id
                == correlation && key.bucket_id == Some(ambient.task().bucket_id) && key.args_hash
                == exact_hash(FNV_OFFSET_BASIS, query.args@) {
                times(self.addresses(query, ambient), key.address)
            } else {
                0
            })
    }

    /// A replay of a table. Of two entries under one key the later one stands.
    #[verifier::loop_isolation(false)]
    pub fn from_table(table: LookupTable) -> (r: LookupTableHook)
        ensures
            forall|key: LookupKeyView| #[trigger]
                r.table.at(key) == last_entry(table.entries@, key),
            r.table.spec_len() == entry_keys(table.entries@).len(),
            forall|c: Option<Seq<char>>| #[trigger] r.next_sequence.upcoming(c, 0) == 0,
            forall|key: StampKeyView| #[trigger] r.stamper.count(key) == 0,
            forall|key: CallsiteKeyView| #[trigger] r.callsite_occurrence.upcoming(key, 0) == 0,
            r.global_counter == 0,
            r.graph_counter == 0,
            r.sink.calls@.len() == 0,
            r.sink.nodes@.len() == 0,
    {
        let ghost all = table.entries@;
        let ghost mut seen: Set<LookupKeyView> = Set::empty();
        let mut entries = table.entries;
        let mut map: Table<LookupKey, LookupEntry> = Table::new();
        while entries.len() > 0
            invariant
                forall|key: LookupKeyView| #[trigger]
                    last_entry(all, key) == (match map.at(key) {
                        Some(entry) => Some(entry),
                        None => last_entry(entries@, key),
                    }),
                seen.finite(),
                map.spec_len() == seen.len(),
                forall|key: LookupKeyView| #[trigger] seen.contains(key) <==> map.at(key) is Some,
            decreases entries@.len(),
        {
            let ghost now = entries@;
            let ghost before = map;
            if let Some(entry) = entries.pop() {
                let ghost k = entry.key@;
                if map.get(&entry.key).is_none() {
                    map.put(entry.key.clone(), entry);
                    proof {
                        seen = seen.insert(k);
                    }
                }
                proof {
                    assert(entries@ =~= now.drop_last());
                    assert forall|key: LookupKeyView| #[trigger]
                        last_entry(all, key) == (match map.at(key) {
                            Some(entry) => Some(entry),
                            None => last_entry(entries@, key),
                        }) by {
                        assert(last_entry(all, key) == (match before.at(key) {
                            Some(entry) => Some(entry),
                            None => last_entry(now, key),
                        }));
                        if key != k {
                            assert(map.at(key) == before.at(key));
                        }
                    }
                    assert forall|key: LookupKeyView| #[trigger]
                        seen.contains(key) <==> map.at(key) is Some by {
                        if key != k {
                            assert(map.at(key) == before.at(key));
                        }
                    }
                }
            }
        }
        proof {
            assert forall|key: LookupKeyView| #[trigger]
                map.at(key) == last_entry(all, key) by {
                assert(last_entry(entries@, key) is None);
            }
            assert(seen =~= entry_keys(all)) by {
                assert forall|key: LookupKeyView| #[trigger]
                    seen.contains(key) <==> entry_keys(all).contains(key) by {
                    last_entry_is_one_of_them(all, key);
                    assert(map.at(key) == last_entry(all, key));
                }
            }
        }
        LookupTableHook {
            table: map,
            next_sequence: Table::new(),
            stamper: KeyStamper::new(),
            global_counter: 0,
            callsite_occurrence: Table::new(),
            graph_counter: 0,
            sink: InMemoryObservedSink::new(),
        }
    }

    /// How many results the table holds.
    pub fn entry_count(&self) -> (r: usize)
        ensures
            r == self.table.spec_len(),
    {
        self.table.len()
    }

    /// Takes a node of the execution graph into the observed stream, at the
    /// next position.
    pub fn record_graph_node(&mut self, node: ExecutionGraphNode)
        ensures
            final(self).sink.nodes@ == old(self).sink.nodes@.push(
                ExecutionGraphNode { global_sequence: old(self).graph_counter, ..node },
            ),
            final(self).graph_counter == next_number(old(self).graph_counter),
            *final(self) == (LookupTableHook {
                sink: final(self).sink,
                graph_counter: final(self).graph_counter,
                ..*old(self)
            }),
            final(self).sink.calls == old(self).sink.calls,
    {
        let global_sequence = self.graph_counter;
        self.graph_counter = global_sequence.wrapping_add(1);
        self.sink.graph_node(ExecutionGraphNode { global_sequence, ..node });
    }

    /// The next position of a call in its correlation.
    fn bump_request_sequence(&mut self, correlation_id: Option<&str>) -> (r: u64)
        requires
            old(self).next_sequence.upcoming(correlation_id.deep_view(), 0) < u64::MAX,
        ensures
            r == old(self).next_sequence.upcoming(correlation_id.deep_view(), 0),
            forall|c: Option<Seq<char>>| #[trigger]
                final(self).next_sequence.upcoming(c, 0) == old(self).next_sequence.upcoming(c, 0)
                    + (if c == correlation_id.deep_view() {
                    1int
                } else {
                    0int
                }),
            *final(self) == (LookupTableHook {
                next_sequence: final(self).next_sequence,
                ..*old(self)
            }),
    {
        let ghost before = self.next_sequence;
        let number = self.next_sequence.take_number(
            CorrelationKey { correlation_id: opt_string(correlation_id) },
            0,
        );
        proof {
            assert forall|c: Option<Seq<char>>| #[trigger]
                self.next_sequence.upcoming(c, 0) == before.upcoming(c, 0) + (if c
                    == correlation_id.deep_view() {
                    1int
                } else {
                    0int
                }) by {
                if c != correlation_id.deep_view() {
                    assert(self.next_sequence.at(c) == before.at(c));
                }
            }
        }
        number
    }

    /// Looks a call up, counting it once whatever is found.
    #[verifier::loop_isolation(false)]
    pub fn resolve(&mut self, query: &ReplayLookup<'_>, ambient: &Ambient) -> (r: Resolution)
        requires
            old(self).has_room(*query, *ambient),
        ensures
            r.says(*query, *ambient, old(self).hit(*query, *ambient)),
            old(self).counts(*query, *ambient, *final(self)),
            final(self).sink == old(self).sink,
    {
        let ghost start = *self;
        let lineage = ambient.task_lineage();
        let request_sequence = self.bump_request_sequence(opt_str(&ambient.correlation_id));
        let args_hash = canonical_args_hash(query.args);
        let location = match &query.caller_location {
            Some(l) => Some((l.file, l.line, l.column)),
            None => None,
        };
        let addresses = addresses_for(
            query.boundary,
            query.method_name,
            query.callsite_identity,
            location,
            request_sequence,
        );
        proof {
            assert(address_views(addresses@) == start.addresses(*query, *ambient));
        }
        let keys = self.stamper.stamp(
            opt_str(&ambient.correlation_id),
            Some(lineage.bucket_id.as_str()),
            lineage.fork_seq,
            &addresses,
            args_hash,
        );
        let ghost all = start.keys(*query, *ambient);
        proof {
            assert(lookup_key_views(keys@) == all);
            assert(all.skip(0) =~= all);
        }
        let mut resolved_rank: Option<u8> = None;
        let mut source_event_global_sequence: Option<u64> = None;
        let mut recorded_result: Option<Json> = None;
        let mut i: usize = 0;
        while i < keys.len() && recorded_result.is_none()
            invariant
                0 <= i <= keys@.len(),
                recorded_result is None ==> first_hit(self.table, all) == first_hit(
                    self.table,
                    all.skip(i as int),
                ) && resolved_rank is None && source_event_global_sequence is None,
                recorded_result is Some ==> (first_hit(self.table, all) matches Some((entry, rank))
                    && resolved_rank == Some(rank) && source_event_global_sequence == Some(
                    entry.source_event_global_sequence,
                ) && recorded_result.deep_view() == Some(entry.result@)),
            decreases keys@.len() - i,
        {
            proof {
                assert(all.skip(i as int)[0] == all[i as int]);
                assert(all[i as int] == keys@[i as int]@);
                assert(all.skip(i as int).drop_first() =~= all.skip(i as int + 1));
            }
            if let Some(entry) = self.table.get(&keys[i]) {
                resolved_rank = Some(keys[i].address.rank());
                source_event_global_sequence = Some(entry.source_event_global_sequence);
                recorded_result = Some(entry.result.clone());
            }
            i = i + 1;
        }
        let bucket = lineage.bucket_id.clone();
        let location = match location {
            Some((file, line, column)) => Some((file.to_owned(), line, column)),
            None => None,
        };
        Resolution {
            correlation_id: opt_clone(&ambient.correlation_id),
            task_id: Some(lineage.task_id),
            parent_task_id: lineage.parent_task_id,
            task_bucket: Some(bucket),
            bucket_id: Some(lineage.bucket_id),
            fork_seq: lineage.fork_seq,
            location,
            graph_node_id: ambient.graph_node_id,
            resolved_rank,
            source_event_global_sequence,
            recorded_result,
        }
    }

    /// Looks a call up and gives the recorded result. The call is observed as
    /// having given it.
    pub fn try_replay_with_context(&mut self, query: ReplayLookup<'_>, ambient: &Ambient) -> (r:
        Option<Json>)
        requires
            old(self).has_room(query, *ambient),
        ensures
            r.deep_view() == hit_result(old(self).hit(query, *ambient)),
            old(self).counts(query, *ambient, *final(self)),
            observed_one(
                *old(self),
                *final(self),
                observation(
                    query,
                    *ambient,
                    old(self).hit(query, *ambient),
                    hit_result(old(self).hit(query, *ambient)),
                    Provenance::Recorded,
                ),
            ),
    {
        let resolution = self.resolve(&query, ambient);
        let recorded = resolution.recorded_result();
        let observed_result = resolution.recorded_result();
        let call = resolution.into_observed_call(
            &query,
            ambient,
            observed_result,
            Provenance::Recorded,
        );
        self.sink.observed(call);
        recorded
    }

    /// Looks a call up by what it is alone, where nothing is known of its site.
    pub fn try_replay(
        &mut self,
        boundary: &str,
        trait_name: &str,
        method_name: &str,
        args: &Json,
        ambient: &Ambient,
    ) -> (r: Option<Json>)
        requires
            old(self).has_room(siteless(boundary, trait_name, method_name, args), *ambient),
        ensures
            ({
                let query = siteless(boundary, trait_name, method_name, args);
                let hit = old(self).hit(query, *ambient);
                &&& r.deep_view() == hit_result(hit)
                &&& old(self).counts(query, *ambient, *final(self))
                &&& observed_one(
                    *old(self),
                    *final(self),
                    observation(query, *ambient, hit, hit_result(hit), Provenance::Recorded),
                )
            }),
    {
        self.try_replay_with_context(
            ReplayLookup {
                boundary,
                trait_name,
                method_name,
                args,
                callsite_identity: None,
                caller_location: None,
            },
            ambient,
        )
    }

    /// Looks a call up that is about to be made live. The token carries what
    /// was recorded until the result is known; nothing is observed yet.
    pub fn execute_shadow_peek(&mut self, query: ReplayLookup<'_>, ambient: &Ambient) -> (r: Option<
        ExecuteShadowToken,
    >)
        requires
            old(self).has_room(query, *ambient),
        ensures
            r matches Some(token) && token.observed@ == observation(
                query,
                *ambient,
                old(self).hit(query, *ambient),
                None,
                Provenance::Shadow,
            ),
            old(self).counts(query, *ambient, *final(self)),
            final(self).sink == old(self).sink,
    {
        let resolution = self.resolve(&query, ambient);
        let observed = resolution.into_observed_call(&query, ambient, None, Provenance::Shadow);
        Some(ExecuteShadowToken::new(observed))
    }

    /// Observes a call that was made live.
    pub fn execute_shadow_observe(&mut self, token: ExecuteShadowToken, observed_result: Json)
        ensures
            observed_one(
                *old(self),
                *final(self),
                ObservedCallView {
                    observed_result: Some(observed_result@),
                    ..token.observed@
                },
            ),
            *final(self) == (LookupTableHook { sink: final(self).sink, ..*old(self) }),
    {
        let observed = token.into_observed(observed_result);
        self.sink.observed(observed);
    }

    /// Observes the end of a request. Nothing else is recorded under replay.
    pub fn record(&mut self, event: BoundaryEvent)
        ensures
            event.boundary@ == "http_incoming"@ ==> observed_one(
                *old(self),
                *final(self),
                finalized(event),
            ) && *final(self) == (LookupTableHook { sink: final(self).sink, ..*old(self) }),
            event.boundary@ != "http_incoming"@ ==> *final(self) == *old(self),
    {
        if !text_eq(event.boundary.as_str(), "http_incoming") {
            return;
        }
        let bucket_id = match event.bucket_id {
            Some(bucket) => bucket,
            None => match &event.task_bucket {
                Some(bucket) => bucket.clone(),
                None => ROOT_TASK_ID.to_owned(),
            },
        };
        let task_bucket = match event.task_bucket {
            Some(bucket) => Some(bucket),
            None => Some(bucket_id.clone()),
        };
        let fork_seq = match event.fork_seq {
            Some(n) => n,
            None => 0,
        };
        let call = ObservedCall {
            correlation_id: event.correlation_id,
            boundary: event.boundary,
            trait_name: event.trait_name,
            method_name: event.method_name,
            args: event.args,
            resolved: false,
            resolved_rank: None,
            source_event_global_sequence: None,
            timestamp_ns: event.timestamp_ns,
            end_timestamp_ns: event.end_timestamp_ns,
            task_id: event.task_id,
            parent_task_id: event.parent_task_id,
            task_bucket,
            bucket_id: Some(bucket_id),
            fork_seq,
            call_file: Some(event.call_file),
            call_line: Some(event.call_line),
            call_column: Some(event.call_column),
            span_path: None,
            graph_node_id: event.graph_node_id,
            synthesized: false,
            real_impl_will_fail: false,
            recorded_result: None,
            observed_result: Some(event.result),
            provenance: Provenance::Recorded,
            seed_gap: false,
        };
        self.sink.observed(call);
    }

    /// The next position among all events.
    pub fn next_global_sequence(&mut self) -> (r: u64)
        ensures
            r == old(self).global_counter,
            *final(self) == (LookupTableHook {
                global_counter: next_number(old(self).global_counter),
                ..*old(self)
            }),
    {
        let number = self.global_counter;
        self.global_counter = number.wrapping_add(1);
        number
    }

    /// Nothing is recorded under replay, so no event needs a position in its
    /// request.
    pub fn next_request_sequence(&self, correlation_id: Option<&str>) -> (r: u64)
        ensures
            r == 0,
    {
        0
    }

    /// The occurrence of a call at its site: one more with each call in the
    /// same correlation, lineage bucket, source and scope.
    pub fn next_callsite_occurrence(
        &mut self,
        correlation_id: Option<&str>,
        source: CallsiteSource,
        scope: Option<&str>,
        ambient: &Ambient,
    ) -> (r: u32)
        requires
            old(self).callsite_occurrence.upcoming(
                site(correlation_id.deep_view(), *ambient, source, scope.deep_view()),
                0,
            ) < u32::MAX,
        ensures
            ({
                let key = site(correlation_id.deep_view(), *ambient, source, scope.deep_view());
                &&& r == old(self).callsite_occurrence.upcoming(key, 0)
                &&& final(self).callsite_occurrence.upcoming(key, 0) == r + 1
                &&& forall|k: CallsiteKeyView|
                    k != key ==> #[trigger] final(self).callsite_occurrence.upcoming(k, 0) == old(
                        self,
                    ).callsite_occurrence.upcoming(k, 0)
                &&& *final(self) == (LookupTableHook {
                    callsite_occurrence: final(self).callsite_occurrence,
                    ..*old(self)
                })
            }),
    {
        let lineage = ambient.task_lineage();
        let ghost key = site(correlation_id.deep_view(), *ambient, source, scope.deep_view());
        let ghost before = self.callsite_occurrence;
        let number = self.callsite_occurrence.take_number(
            CallsiteKey {
                correlation_id: opt_string(correlation_id),
                bucket_id: Some(lineage.bucket_id),
                source,
                scope: opt_string(scope),
            },
            0,
        );
        proof {
            assert forall|k: CallsiteKeyView| k != key implies #[trigger]
                self.callsite_occurrence.upcoming(k, 0) == before.upcoming(k, 0) by {
                assert(self.callsite_occurrence.at(k) == before.at(k));
            }
        }
        number as u32
    }
}

/// What the occurrences of a call site are counted under.
pub open spec fn site(
    correlation_id: Option<Seq<char>>,
    ambient: Ambient,
    source: CallsiteSource,
    scope: Option<Seq<char>>,
) -> CallsiteKeyView {
    CallsiteKeyView {
        correlation_id,
        bucket_id: Some(ambient.task().bucket_id),
        source,
        scope,
    }
}

/// A lookup by what a call is alone.
pub open spec fn siteless<'a>(
    boundary: &'a str,
    trait_name: &'a str,
    method_name: &'a str,
    args: &'a Json,
) -> ReplayLookup<'a> {
    ReplayLookup {
        boundary,
        trait_name,
        method_name,
        args,
        callsite_identity: None,
        caller_location: None,
    }
}

/// Whether exactly one call was observed between two states of a hook, behind
/// those observed before.
pub open spec fn observed_one(
    before: LookupTableHook,
    after: LookupTableHook,
    call: ObservedCallView,
) -> bool {
    &&& after.sink.calls@.len() == before.sink.calls@.len() + 1
    &&& after.sink.calls@.drop_last() =~= before.sink.calls@
    &&& after.sink.calls@.last()@ == call
    &&& after.sink.nodes == before.sink.nodes
}

/// The end of a request, as it is observed.
pub open spec fn finalized(event: BoundaryEvent) -> ObservedCallView {
    let bucket = match either(event.bucket_id.deep_view(), event.task_bucket.deep_view()) {
        Some(bucket) => bucket,
        None => ROOT_TASK_ID@,
    };
    ObservedCallView {
        correlation_id: event.correlation_id.deep_view(),
        boundary: event.boundary@,
        trait_name: event.trait_name@,
        method_name: event.method_name@,
        args: event.args@,
        resolved: false,
        resolved_rank: None,
        source_event_global_sequence: None,
        timestamp_ns: event.timestamp_ns,
        end_timestamp_ns: event.end_timestamp_ns,
        task_id: event.task_id.deep_view(),
        parent_task_id: event.parent_task_id.deep_view(),
        task_bucket: either(event.task_bucket.deep_view(), Some(bucket)),
        bucket_id: Some(bucket),
        fork_seq: match event.fork_seq {
            Some(n) => n,
            None => 0,
        },
        call_file: Some(event.call_file@),
        call_line: Some(event.call_line),
        call_column: Some(event.call_column),
        span_path: None,
        graph_node_id: event.graph_node_id,
        synthesized: false,
        real_impl_will_fail: false,
        recorded_result: None,
        observed_result: Some(event.result@),
        provenance: Provenance::Recorded,
        seed_gap: false,
    }
}

/// Of the entries under one key the last stands, and a key without entries is not
/// found.
pub proof fn the_last_entry_stands(entries: Seq<LookupEntry>, key: LookupKeyView)
    ensures
        forall|i: int|
            0 <= i < entries.len() && (#[trigger] entries[i]).key@ == key && (forall|j: int|
                i < j < entries.len() ==> (#[trigger] entries[j]).key@ != key) ==> last_entry(
                entries,
                key,
            ) == Some(entries[i]),
        (forall|i: int| 0 <= i < entries.len() ==> (#[trigger] entries[i]).key@ != key)
            ==> last_entry(entries, key) is None,
        last_entry(entries, key) matches Some(e) ==> e.key@ == key && entries.contains(e),
    decreases entries.len(),
{
    if entries.len() > 0 {
        let before = entries.drop_last();
        let n = entries.len() - 1;
        the_last_entry_stands(before, key);
        if entries[n].key@ != key {
            assert forall|i: int|
                0 <= i < entries.len() && (#[trigger] entries[i]).key@ == key && (forall|j: int|
                    i < j < entries.len() ==> (
                    #[trigger] entries[j]).key@ != key) implies last_entry(entries, key) == Some(
                entries[i],
            ) by {
                assert(i < before.len());
                assert(before[i] == entries[i]);
                assert forall|j: int| i < j < before.len() implies (#[trigger] before[j]).key@
                    != key by {
                    assert(entries[j].key@ != key);
                }
            }
            if forall|i: int| 0 <= i < entries.len() ==> (#[trigger] entries[i]).key@ != key {
                assert forall|i: int| 0 <= i < before.len() implies (#[trigger] before[i]).key@
                    != key by {
                    assert(entries[i].key@ != key);
                }
            }
            if last_entry(before, key) is Some {
                let e = last_entry(before, key)->0;
                let i = choose|i: int| 0 <= i < before.len() && before[i] == e;
                assert(entries[i] == e);
            }
        } else {
            assert(entries.contains(entries[n]));
        }
    }
}

proof fn the_first_key_hits(table: Table<LookupKey, LookupEntry>, keys: Seq<LookupKeyView>)
    ensures
        match first_hit(table, keys) {
            Some((entry, rank)) => exists|i: int|
                0 <= i < keys.len() && table.at(#[trigger] keys[i]) == Some(entry) && rank
                    == keys[i].address.rank() && forall|j: int|
                    0 <= j < i ==> table.at(#[trigger] keys[j]) is None,
            None => forall|j: int| 0 <= j < keys.len() ==> table.at(#[trigger] keys[j]) is None,
        },
    decreases keys.len(),
{
    if keys.len() > 0 && table.at(keys[0]) is None {
        let rest = keys.drop_first();
        the_first_key_hits(table, rest);
        match first_hit(table, rest) {
            Some((entry, rank)) => {
                let i = choose|i: int|
                    0 <= i < rest.len() && table.at(#[trigger] rest[i]) == Some(entry) && rank
                        == rest[i].address.rank() && forall|j: int|
                        0 <= j < i ==> table.at(#[trigger] rest[j]) is None;
                assert(keys[i + 1] == rest[i]);
                assert forall|j: int| 0 <= j < i + 1 implies table.at(#[trigger] keys[j]) is None by {
                    if j > 0 {
                        assert(rest[j - 1] == keys[j]);
                    }
                }
            },
            None => {
                assert forall|j: int| 0 <= j < keys.len() implies table.at(
                    #[trigger] keys[j],
                ) is None by {
                    if j > 0 {
                        assert(rest[j - 1] == keys[j]);
                    }
                }
            },
        }
    }
}

/// A call is answered by the entry under the first of its keys that the table
/// holds, and by nothing if the table holds none of them; each of its keys carries
/// the correlation, the lineage bucket and the fork of the call, and the exact
/// hash of its arguments.
pub proof fn calls_are_answered_by_their_most_stable_address(
    hook: LookupTableHook,
    query: ReplayLookup<'_>,
    ambient: Ambient,
)
    ensures
        ({
            let keys = hook.keys(query, ambient);
            &&& forall|i: int|
                0 <= i < keys.len() ==> (#[trigger] keys[i]).correlation_id
                    == ambient.correlation_id.deep_view() && keys[i].bucket_id == Some(
                    ambient.task().bucket_id,
                ) && keys[i].fork_seq == ambient.task().fork_seq && keys[i].args_hash
                    == exact_hash(FNV_OFFSET_BASIS, query.args@) && keys[i].address
                    == hook.addresses(query, ambient)[i]
            &&& match hook.hit(query, ambient) {
                Some((entry, rank)) => exists|i: int|
                    0 <= i < keys.len() && hook.table.at(#[trigger] keys[i]) == Some(entry) && rank
                        == keys[i].address.rank() && forall|j: int|
                        0 <= j < i ==> hook.table.at(#[trigger] keys[j]) is None,
                None => forall|j: int|
                    0 <= j < keys.len() ==> hook.table.at(#[trigger] keys[j]) is None,
            }
            &&& hit_result(hook.hit(query, ambient)) == (match hook.hit(query, ambient) {
                Some((entry, _)) => Some(entry.result@),
                None => None,
            })
        }),
{
    the_first_key_hits(hook.table, hook.keys(query, ambient));
}

/// What is observed of a call names the call, what surrounded it and its place;
/// it counts as resolved exactly where something was found, and then names the
/// rank, the event and the result that were found.
pub proof fn observations_say_what_was_seen(
    query: ReplayLookup<'_>,
    ambient: Ambient,
    hit: Option<(LookupEntry, u8)>,
    observed_result: Option<JsonView>,
    provenance: Provenance,
)
    ensures
        ({
            let o = observation(query, ambient, hit, observed_result, provenance);
            let task = ambient.task();
            &&& o.correlation_id == ambient.correlation_id.deep_view()
            &&& o.boundary == query.boundary@
            &&& o.trait_name == query.trait_name@
            &&& o.method_name == query.method_name@
            &&& o.args == query.args@
            &&& o.timestamp_ns == ambient.now_ns
            &&& o.end_timestamp_ns is None
            &&& o.task_id == Some(task.task_id)
            &&& o.parent_task_id == task.parent_task_id
            &&& o.task_bucket == Some(task.bucket_id)
            &&& o.bucket_id == Some(task.bucket_id)
            &&& o.fork_seq == task.fork_seq
            &&& o.span_path == ambient.span_path.deep_view()
            &&& o.graph_node_id == ambient.graph_node_id
            &&& o.observed_result == observed_result
            &&& o.provenance == provenance
            &&& !o.synthesized && !o.real_impl_will_fail && !o.seed_gap
            &&& o.resolved <==> hit is Some
            &&& hit matches Some((entry, rank)) ==> o.resolved_rank == Some(rank)
                && o.recorded_result == Some(entry.result@) && o.source_event_global_sequence
                == Some(entry.source_event_global_sequence)
            &&& hit is None ==> o.resolved_rank is None && o.recorded_result is None
                && o.source_event_global_sequence is None
            &&& match query.caller_location {
                Some(l) => o.call_file == Some(l.file@) && o.call_line == Some(l.line)
                    && o.call_column == Some(l.column),
                None => o.call_file is None && o.call_line is None && o.call_column is None,
            }
        }),
{
}

/// The end of a request is observed as it was recorded: its call, its times, its
/// task and its result, resolved from nothing. Its bucket is the one it names,
/// else its task's, else the root's.
pub proof fn ends_of_requests_are_observed_as_recorded(e: BoundaryEvent)
    ensures
        ({
            let o = finalized(e);
            &&& o.correlation_id == e.correlation_id.deep_view()
            &&& o.boundary == e.boundary@
            &&& o.trait_name == e.trait_name@
            &&& o.method_name == e.method_name@
            &&& o.args == e.args@
            &&& o.observed_result == Some(e.result@)
            &&& o.recorded_result is None && o.resolved_rank is None && !o.resolved
            &&& o.source_event_global_sequence is None
            &&& o.timestamp_ns == e.timestamp_ns
            &&& o.end_timestamp_ns == e.end_timestamp_ns
            &&& o.task_id == e.task_id.deep_view()
            &&& o.parent_task_id == e.parent_task_id.deep_view()
            &&& o.graph_node_id == e.graph_node_id
            &&& o.call_file == Some(e.call_file@)
            &&& o.call_line == Some(e.call_line)
            &&& o.call_column == Some(e.call_column)
            &&& e.bucket_id is Some ==> o.bucket_id == e.bucket_id.deep_view()
            &&& e.bucket_id is None && e.task_bucket is Some ==> o.bucket_id
                == e.task_bucket.deep_view()
            &&& e.bucket_id is None && e.task_bucket is None ==> o.bucket_id == Some(
                ROOT_TASK_ID@,
            )
            &&& e.task_bucket is Some ==> o.task_bucket == e.task_bucket.deep_view()
            &&& e.task_bucket is None ==> o.task_bucket == o.bucket_id
            &&& o.fork_seq == (match e.fork_seq {
                Some(n) => n,
                None => 0u64,
            })
            &&& o.provenance is Recorded
            &&& o.span_path is None
            &&& !o.synthesized && !o.real_impl_will_fail && !o.seed_gap
        }),
{
}

/// The addresses of a call that is made now are those of its site and its place,
/// and its position in its correlation.
pub proof fn calls_are_addressed_by_what_they_are(
    hook: LookupTableHook,
    query: ReplayLookup<'_>,
    ambient: Ambient,
    a: AddressView,
)
    ensures
        hook.addresses(query, ambient).contains(a) <==> {
            ||| a == (AddressView::Sequence {
                boundary: query.boundary@,
                method: query.method_name@,
                request_sequence: hook.next_sequence.upcoming(
                    ambient.correlation_id.deep_view(),
                    0,
                ),
            })
            ||| query.caller_location matches Some(l) && a == (AddressView::SourceLocation {
                file: l.file@,
                line: l.line,
                column: l.column,
            })
            ||| query.callsite_identity matches Some(id) && {
                ||| id.source is Explicit && id.id is Some && a == AddressView::Explicit(
                    id.id->0@,
                )
                ||| id.span_path is Some && a == (AddressView::SpanPath { path: id.span_path->0@ })
                ||| id.syntax_hash is Some && a == AddressView::SyntacticHash(id.syntax_hash->0)
                ||| id.lexical_path is Some && a == (AddressView::LexicalPath {
                    path: id.lexical_path->0@,
                    scope_occurrence: id.occurrence,
                })
            }
        },
{
    every_address_is_listed(
        query.boundary@,
        query.method_name@,
        identity_value(query.callsite_identity),
        place(query),
        hook.next_sequence.upcoming(ambient.correlation_id.deep_view(), 0),
        a,
    );
}

/// A lookup by what a call is alone carries nothing of its site, and the
/// occurrences of a site are counted under its correlation, its bucket, its source
/// and its scope.
pub proof fn sites_are_counted_by_what_they_are(
    boundary: &str,
    trait_name: &str,
    method_name: &str,
    args: &Json,
    correlation_id: Option<Seq<char>>,
    ambient: Ambient,
    source: CallsiteSource,
    scope: Option<Seq<char>>,
)
    ensures
        siteless(boundary, trait_name, method_name, args).callsite_identity is None,
        siteless(boundary, trait_name, method_name, args).caller_location is None,
        siteless(boundary, trait_name, method_name, args).boundary@ == boundary@,
        siteless(boundary, trait_name, method_name, args).trait_name@ == trait_name@,
        siteless(boundary, trait_name, method_name, args).method_name@ == method_name@,
        siteless(boundary, trait_name, method_name, args).args@ == args@,
        site(correlation_id, ambient, source, scope).correlation_id == correlation_id,
        site(correlation_id, ambient, source, scope).bucket_id == Some(ambient.task().bucket_id),
        site(correlation_id, ambient, source, scope).source == source,
        site(correlation_id, ambient, source, scope).scope == scope,
{
}

/// A call that is looked up counts once, whatever was found: one position more in
/// its correlation and in no other, and one occurrence more under each of its
/// addresses; the table stays as it is.
pub proof fn lookups_count_once(
    before: LookupTableHook,
    query: ReplayLookup<'_>,
    ambient: Ambient,
    after: LookupTableHook,
    other: Option<Seq<char>>,
    a: AddressView,
)
    requires
        LookupTableHook::counts(before, query, ambient, after),
    ensures
        after.next_sequence.upcoming(ambient.correlation_id.deep_view(), 0)
            == before.next_sequence.upcoming(ambient.correlation_id.deep_view(), 0) + 1,
        other != ambient.correlation_id.deep_view() ==> after.next_sequence.upcoming(other, 0)
            == before.next_sequence.upcoming(other, 0),
        after.table == before.table,
        after.global_counter == before.global_counter,
        after.graph_counter == before.graph_counter,
        after.callsite_occurrence == before.callsite_occurrence,
        after.stamper.count(
            StampKeyView {
                correlation_id: ambient.correlation_id.deep_view(),
                bucket_id: Some(ambient.task().bucket_id),
                address: a,
                args_hash: exact_hash(FNV_OFFSET_BASIS, query.args@),
            },
        ) == before.stamper.count(
            StampKeyView {
                correlation_id: ambient.correlation_id.deep_view(),
                bucket_id: Some(ambient.task().bucket_id),
                address: a,
                args_hash: exact_hash(FNV_OFFSET_BASIS, query.args@),
            },
        ) + before.addresses(query, ambient).to_multiset().count(a),
{
    times_are_counted(before.addresses(query, ambient), a);
}

/// What is held of a call that was looked up says all that its observation says of
/// it.
pub proof fn resolutions_say_what_is_observed(
    r: Resolution,
    query: ReplayLookup<'_>,
    ambient: Ambient,
    hit: Option<(LookupEntry, u8)>,
)
    requires
        r.says(query, ambient, hit),
    ensures
        ({
            let o = observation(query, ambient, hit, None, Provenance::Recorded);
            &&& r.correlation_id.deep_view() == o.correlation_id
            &&& r.task_id.deep_view() == o.task_id
            &&& r.parent_task_id.deep_view() == o.parent_task_id
            &&& r.task_bucket.deep_view() == o.task_bucket
            &&& r.bucket_id.deep_view() == o.bucket_id
            &&& r.fork_seq == o.fork_seq
            &&& r.graph_node_id == o.graph_node_id
            &&& r.resolved_rank == o.resolved_rank
            &&& r.source_event_global_sequence == o.source_event_global_sequence
            &&& r.recorded_result.deep_view() == o.recorded_result
            &&& r.location is Some <==> query.caller_location is Some
            &&& r.location matches Some(l) ==> Some(l.0@) == o.call_file && Some(l.1) == o.call_line
                && Some(l.2) == o.call_column
        }),
{
}

} // verus!
