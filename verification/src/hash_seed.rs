//! Hash keys that are recorded, so that collections iterate under replay as
//! they did when they were recorded. All collections of a correlation share one
//! pair of keys.

use vstd::prelude::*;
use crate::ambient::{Ambient, ReplayLookup};
use crate::args_hash::digest_of;
use crate::builder::{
    entropy_label, BoundarySpec, CallLocation, EventBuilder, FinishContext, RecordedOutput,
    Sequences,
};
use crate::crossing::FailStop;
use crate::dispatch::{
    dispatch, event_correlation, finished, finishes_in, ran_recorded, recorded, started, starts,
    CrossingObservation, EventStart, Reconstructed,
};
use crate::event::{
    BoundaryDeclaration, BoundaryEvent, BoundarySemantics, CallsiteIdentity, CallsiteSource,
    OperationKind, ReplayStrategy, RuntimeMode, CURRENT_EVENT_SCHEMA_VERSION,
};
use crate::fnv::{fnv_text, stable_callsite_hash, FNV_OFFSET_BASIS};
use crate::hook::DejaHook;
use crate::json::{
    find, group_json_view, members_view, render_json, rendered_json, Json, JsonView,
};
use crate::lineage::stamped;
use crate::recording::read_off_the_clock;
use crate::table::{Table, TextKey};
use crate::text::{decimal, decimal_round_trips, joined, opt_clone, texts};

verus! {

/// The boundary of the draw.
pub const BOUNDARY: &'static str = "hash_seed";

/// The component the draw belongs to.
pub const COMPONENT: &'static str = "deja_runtime::hash_seed";

/// The operation of the draw.
pub const OPERATION: &'static str = "draw_hash_keys";

/// The site of the draw.
pub const SCOPE: &'static str = "deja::hash_seed::draw";

/// The pair of keys that all collections of a correlation share.
#[derive(Clone, Copy, PartialEq, Eq, Structural)]
pub struct HashKeys {
    pub k0: u64,
    pub k1: u64,
}

impl HashKeys {
    /// The keys as they may be written to a log: not at all.
    pub fn masked(&self) -> (r: String)
        ensures
            r@ == "HashKeys { k0: \"***\", k1: \"***\" }"@,
    {
        "HashKeys { k0: \"***\", k1: \"***\" }".to_owned()
    }
}

/// The keys of the correlations, each from when it was first asked for until
/// the correlation ends.
pub struct HashKeyMemo {
    cells: Table<TextKey, Option<HashKeys>>,
}

/// What is to be done for the keys of a collection.
#[derive(Clone, Copy, PartialEq, Eq, Structural)]
pub enum KeyStep {
    /// The correlation has keys.
    Known(HashKeys),
    /// The first collection of its correlation: keys are to be drawn.
    Draw,
    /// No correlation: the collection is left to std.
    Nothing,
}

impl HashKeyMemo {
    /// Whether a correlation was asked for.
    pub closed spec fn holds(self, correlation_id: Seq<char>) -> bool {
        self.cells.at(correlation_id) is Some
    }

    /// The keys of a correlation, once they are drawn.
    pub closed spec fn keys(self, correlation_id: Seq<char>) -> Option<HashKeys> {
        match self.cells.at(correlation_id) {
            Some(cell) => cell,
            None => None,
        }
    }

    /// Whether two memos hold the same for every correlation but one.
    pub open spec fn same_but(self, other: HashKeyMemo, correlation_id: Seq<char>) -> bool {
        forall|c: Seq<char>|
            c != correlation_id ==> #[trigger] self.holds(c) == other.holds(c) && self.keys(c)
                == other.keys(c)
    }

    /// No correlation asked for.
    pub fn new() -> (r: HashKeyMemo)
        ensures
            forall|c: Seq<char>| !(#[trigger] r.holds(c)) && r.keys(c) is None,
    {
        HashKeyMemo { cells: Table::new() }
    }

    /// The keys of a correlation, where they are drawn; from now on it has been
    /// asked for.
    pub fn cell_for(&mut self, correlation: &str) -> (r: Option<HashKeys>)
        ensures
            r == old(self).keys(correlation@),
            final(self).holds(correlation@),
            final(self).keys(correlation@) == r,
            final(self).same_but(*old(self), correlation@),
    {
        let ghost before = *self;
        let key = TextKey { text: correlation.to_owned() };
        let keys: Option<HashKeys> = match self.cells.get(&key) {
            Some(cell) => {
                return *cell;
            },
            None => None,
        };
        self.cells.put(key, None);
        proof {
            assert forall|c: Seq<char>| c != correlation@ implies #[trigger] self.holds(c)
                == before.holds(c) && self.keys(c) == before.keys(c) by {
                assert(self.cells.at(c) == before.cells.at(c));
            }
        }
        keys
    }

    /// What is to be done for the keys of a collection that is made now.
    pub fn step(&mut self, correlation: Option<&str>) -> (r: KeyStep)
        ensures
            match correlation {
                None => r is Nothing && *final(self) == *old(self),
                Some(c) => {
                    &&& r == (match old(self).keys(c@) {
                        Some(keys) => KeyStep::Known(keys),
                        None => KeyStep::Draw,
                    })
                    &&& final(self).holds(c@)
                    &&& final(self).keys(c@) == old(self).keys(c@)
                    &&& final(self).same_but(*old(self), c@)
                },
            },
    {
        match correlation {
            None => KeyStep::Nothing,
            Some(c) => match self.cell_for(c) {
                Some(keys) => KeyStep::Known(keys),
                None => KeyStep::Draw,
            },
        }
    }

    /// Keeps the keys that were drawn for a correlation, unless it has keys.
    /// Gives the keys it has.
    pub fn settle(&mut self, correlation: &str, drawn: HashKeys) -> (r: HashKeys)
        ensures
            r == (match old(self).keys(correlation@) {
                Some(keys) => keys,
                None => drawn,
            }),
            final(self).holds(correlation@),
            final(self).keys(correlation@) == Some(r),
            final(self).same_but(*old(self), correlation@),
    {
        let ghost before = *self;
        let keys = match self.cell_for(correlation) {
            Some(keys) => keys,
            None => drawn,
        };
        let ghost mid = *self;
        self.cells.put(TextKey { text: correlation.to_owned() }, Some(keys));
        proof {
            assert forall|c: Seq<char>| c != correlation@ implies #[trigger] self.holds(c)
                == before.holds(c) && self.keys(c) == before.keys(c) by {
                assert(self.cells.at(c) == mid.cells.at(c));
                assert(mid.holds(c) == before.holds(c));
            }
        }
        keys
    }

    /// Whether a correlation was asked for and has not ended.
    pub fn memo_holds(&self, correlation_id: &str) -> (r: bool)
        ensures
            r == self.holds(correlation_id@),
    {
        self.cells.get(&TextKey { text: correlation_id.to_owned() }).is_some()
    }

    /// Forgets a correlation that has ended.
    pub fn clear_hash_keys_for_correlation(&mut self, correlation_id: Option<&str>)
        ensures
            match correlation_id {
                None => *final(self) == *old(self),
                Some(c) => {
                    &&& !final(self).holds(c@)
                    &&& final(self).keys(c@) is None
                    &&& final(self).same_but(*old(self), c@)
                },
            },
    {
        let ghost before = *self;
        if let Some(c) = correlation_id {
            self.cells.remove(&TextKey { text: c.to_owned() });
            proof {
                assert forall|x: Seq<char>| x != c@ implies #[trigger] self.holds(x)
                    == before.holds(x) && self.keys(x) == before.keys(x) by {
                    assert(self.cells.at(x) == before.cells.at(x));
                }
            }
        }
    }
}

/// The recorded image of a pair of keys.
pub open spec fn keys_image(keys: HashKeys) -> JsonView {
    JsonView::Object(
        seq![
            ("k0"@, JsonView::Number(decimal(keys.k0 as nat))),
            ("k1"@, JsonView::Number(decimal(keys.k1 as nat))),
        ],
    )
}

/// The pair of keys in a recorded image.
pub open spec fn keys_in(recorded: JsonView) -> Option<HashKeys> {
    match (recorded.member("k0"@), recorded.member("k1"@)) {
        (Some(a), Some(b)) => match (a.number_u64(), b.number_u64()) {
            (Some(k0), Some(k1)) => Some(HashKeys { k0, k1 }),
            _ => None,
        },
        _ => None,
    }
}

/// The recorded image of a pair of keys.
pub fn capture_keys(keys: &HashKeys) -> (r: Json)
    ensures
        r@ == keys_image(*keys),
{
    broadcast use group_json_view;

    let mut members: Vec<(String, Json)> = Vec::new();
    members.push(("k0".to_owned(), Json::from_u64(keys.k0)));
    members.push(("k1".to_owned(), Json::from_u64(keys.k1)));
    proof {
        assert(members_view(members@) =~= keys_image(*keys)->Object_0);
    }
    Json::Object(members)
}

/// Why a recorded image cannot be read, in words.
pub open spec fn no_pair(recorded: Seq<char>) -> Seq<char> {
    "recorded hash-key event carried no k0/k1 pair: "@ + recorded
}

/// The pair of keys in a recorded image, or why there is none.
pub fn reconstruct_keys(recorded: &Json) -> (r: Result<HashKeys, String>)
    ensures
        match r {
            Ok(keys) => keys_in(recorded@) == Some(keys),
            Err(why) => keys_in(recorded@) is None && why@ == no_pair(rendered_json(recorded@)),
        },
{
    let k0 = match recorded.get("k0") {
        Some(v) => v.as_u64(),
        None => None,
    };
    let k1 = match recorded.get("k1") {
        Some(v) => v.as_u64(),
        None => None,
    };
    match (k0, k1) {
        (Some(k0), Some(k1)) => Ok(HashKeys { k0, k1 }),
        _ => {
            let text = render_json(recorded);
            Err(joined("recorded hash-key event carried no k0/k1 pair: ", text.as_str()))
        },
    }
}

/// A recorded pair of keys is read back as it was.
pub proof fn recorded_keys_are_read_back(keys: HashKeys)
    ensures
        keys_in(keys_image(keys)) == Some(keys),
{
    reveal_strlit("k0");
    reveal_strlit("k1");
    decimal_round_trips(keys.k0 as nat);
    decimal_round_trips(keys.k1 as nat);
    let members = keys_image(keys)->Object_0;
    assert("k0"@[1] != "k1"@[1]);
    assert(members.drop_first()[0] == members[1]);
    reveal_with_fuel(find, 3);
}

/// `std::hash::RandomState::new`: keys of the process's own. Nothing is claimed
/// of them; they are drawn at random.
#[verifier::external_body]
fn random_state() -> std::hash::RandomState {
    std::hash::RandomState::new()
}

/// `std::hash::BuildHasher::hash_one` on a byte. Nothing is claimed of the hash;
/// it rests on keys that are drawn at random.
#[verifier::external_body]
fn hash_tag(state: &std::hash::RandomState, tag: u8) -> u64 {
    std::hash::BuildHasher::hash_one(state, tag)
}

/// What a collection is hashed with.
pub enum DejaRandomState {
    /// The keys of the correlation it was made in.
    Seeded(HashKeys),
    /// Keys of its own, from std: it was made outside any correlation.
    Std(std::hash::RandomState),
}

impl DejaRandomState {
    /// What a collection is hashed with that is made now, by the keys of its
    /// correlation.
    pub fn for_keys(keys: Option<HashKeys>) -> (r: DejaRandomState)
        ensures
            match keys {
                Some(k) => r == DejaRandomState::Seeded(k),
                None => r is Std,
            },
    {
        match keys {
            Some(k) => DejaRandomState::Seeded(k),
            None => DejaRandomState::Std(random_state()),
        }
    }
}

/// Whether a pair of keys was drawn: both are hashes under one and the same
/// fresh state of std, the first of the tag 0 and the second of the tag 1.
pub closed spec fn freshly_drawn(keys: HashKeys) -> bool {
    exists|state: std::hash::RandomState|
        #![trigger call_ensures(random_state, (), state)]
        call_ensures(random_state, (), state) && call_ensures(hash_tag, (&state, 0u8), keys.k0)
            && call_ensures(hash_tag, (&state, 1u8), keys.k1)
}

/// Draws a fresh pair of keys, out of the randomness std seeds itself with.
pub fn draw_keys() -> (r: HashKeys)
    ensures
        freshly_drawn(r),
{
    let seed = random_state;
    let derive = hash_tag;
    let state = seed();
    HashKeys { k0: derive(&state, 0), k1: derive(&state, 1) }
}

/// The SipHash-1-3 of bytes under a pair of keys.
pub uninterp spec fn sip13(k0: u64, k1: u64, bytes: Seq<u8>) -> u64;

/// `siphasher::sip::SipHasher13`'s `hash` under the keys it was made with: the
/// SipHash-1-3 of the bytes, which rests on the keys and the bytes alone. It is
/// named by [`sip13`].
#[verifier::external_body]
fn sip13_hash(k0: u64, k1: u64, bytes: &Vec<u8>) -> (r: u64)
    ensures
        r == sip13(k0, k1, bytes@),
{
    siphasher::sip::SipHasher13::new_with_keys(k0, k1).hash(bytes)
}

/// Hashes what is written to it under the keys of a correlation.
pub struct SeededHasher {
    pub keys: HashKeys,
    pub written: Vec<u8>,
}

impl SeededHasher {
    /// A hasher to which nothing was written.
    pub fn new(keys: HashKeys) -> (r: SeededHasher)
        ensures
            r.keys == keys,
            r.written@ == Seq::<u8>::empty(),
    {
        SeededHasher { keys, written: Vec::new() }
    }

    /// Takes more bytes.
    pub fn write(&mut self, bytes: &[u8])
        ensures
            final(self).keys == old(self).keys,
            final(self).written@ == old(self).written@ + bytes@,
    {
        let ghost was = self.written@;
        self.written.extend_from_slice(bytes);
        proof {
            assert(self.written@ =~= was + bytes@);
        }
    }

    /// The hash of what was written.
    pub fn finish(&self) -> (r: u64)
        ensures
            r == sip13(self.keys.k0, self.keys.k1, self.written@),
    {
        sip13_hash(self.keys.k0, self.keys.k1, &self.written)
    }
}

/// Whether an identity is that of the draw.
pub open spec fn is_draw(identity: CallsiteIdentity, occurrence: u32, ambient: Ambient) -> bool {
    &&& identity.version == 1
    &&& identity.source is SyntacticHash
    &&& identity.id is None
    &&& identity.scope.deep_view() == Some(SCOPE@)
    &&& identity.occurrence == occurrence
    &&& identity.caller_function.deep_view() == Some(OPERATION@)
    &&& identity.lexical_path.deep_view() == Some(SCOPE@)
    &&& identity.syntax_hash == Some(fnv_text(FNV_OFFSET_BASIS, SCOPE@))
    &&& identity.span_path.deep_view() == ambient.span_path.deep_view()
}

/// Whether a declaration is that of the draw: entropy, and nothing else.
pub open spec fn declares_draw(declaration: BoundaryDeclaration) -> bool {
    &&& declaration.op == Some(OperationKind::Entropy)
    &&& declaration.effect is None
    &&& declaration.return_shape is None
    &&& declaration.codec is None
    &&& declaration.state_canon is None
    &&& declaration.reply_canon is None
}

/// Whether a boundary is that of the draw: it is substituted under replay, never
/// executed.
pub open spec fn is_draw_boundary(spec: BoundarySpec) -> bool {
    &&& spec.boundary@ == BOUNDARY@
    &&& spec.trait_name@ == COMPONENT@
    &&& spec.method_name@ == OPERATION@
    &&& spec.replay_strategy is Substitute
    &&& spec.kind.deep_view() == Some(BOUNDARY@)
    &&& spec.declaration matches Some(d) && declares_draw(d)
}

/// The crossing of the draw.
fn draw_observation(
    correlation: &str,
    occurrence: u32,
    caller: CallLocation,
    ambient: &Ambient,
) -> (r: CrossingObservation)
    ensures
        is_draw_boundary(r.spec),
        is_draw(r.identity, occurrence, *ambient),
        r.caller == caller,
        r.correlation_id.deep_view() == Some(correlation@),
        r.state_capture is None,
{
    let identity = CallsiteIdentity {
        version: 1,
        source: CallsiteSource::SyntacticHash,
        id: None,
        scope: Some(SCOPE.to_owned()),
        occurrence,
        caller_function: Some(OPERATION.to_owned()),
        lexical_path: Some(SCOPE.to_owned()),
        syntax_hash: Some(stable_callsite_hash(SCOPE)),
        span_path: opt_clone(&ambient.span_path),
    };
    let spec = BoundarySpec::with_semantics(
        BOUNDARY,
        COMPONENT,
        OPERATION,
        BoundarySemantics {
            replay_strategy: ReplayStrategy::Substitute,
            kind: Some(BOUNDARY.to_owned()),
            declaration: Some(BoundaryDeclaration::default().operation(OperationKind::Entropy)),
        },
    );
    CrossingObservation::with_correlation(spec, identity, caller, Some(correlation.to_owned()))
}

/// Whether a lookup is that of the draw: it carries no arguments.
pub open spec fn draw_lookup(
    query: ReplayLookup<'_>,
    occurrence: u32,
    caller: CallLocation,
    ambient: Ambient,
) -> bool {
    &&& query.boundary@ == BOUNDARY@
    &&& query.trait_name@ == COMPONENT@
    &&& query.method_name@ == OPERATION@
    &&& query.args@ == JsonView::Object(Seq::empty())
    &&& query.caller_location == Some(caller)
    &&& query.callsite_identity matches Some(identity) && is_draw(*identity, occurrence, ambient)
}

/// Whether an event records the draw of a pair of keys for a correlation, by a
/// hook that records this run: it touches no state and carries what surrounds
/// the draw.
pub open spec fn records_draw(
    event: BoundaryEvent,
    correlation: Seq<char>,
    occurrence: u32,
    caller: CallLocation,
    ambient: Ambient,
    run_id: Option<Seq<char>>,
    keys: HashKeys,
) -> bool {
    let none = JsonView::Object(Seq::empty());
    let lineage = stamped(ambient.task());
    &&& event.boundary@ == BOUNDARY@
    &&& event.trait_name@ == COMPONENT@
    &&& event.method_name@ == OPERATION@
    &&& event.correlation_id.deep_view() == Some(correlation)
    &&& event.callsite_identity matches Some(identity) && is_draw(identity, occurrence, ambient)
    &&& event.call_file@ == caller.file@
    &&& event.call_line == caller.line
    &&& event.call_column == caller.column
    &&& event.replay_strategy is Substitute
    &&& event.kind.deep_view() == Some(BOUNDARY@)
    &&& event.declaration matches Some(d) && declares_draw(d)
    &&& event.receiver is None
    &&& event.args@ == none && event.request@ == none
    &&& event.result@ == keys_image(keys) && event.response@ == keys_image(keys)
    &&& !event.is_error
    &&& event.value_digest == Some(digest_of(none, keys_image(keys)))
    &&& event.entropy_source is None
    &&& event.raw_draw is None
    &&& event.read_set@.len() == 0 && event.write_set@.len() == 0
    &&& event.result_image is None && event.pre_image is None
    &&& event.recording_run_id.deep_view() == (if run_id is Some {
        run_id
    } else {
        ambient.process_run_id.deep_view()
    })
    &&& event.graph_node_id == ambient.graph_node_id
    &&& event.tracing_span_id == ambient.tracing_span_id
    &&& event.task_id.deep_view() == lineage.task_id
    &&& event.parent_task_id.deep_view() == lineage.parent_task_id
    &&& event.task_bucket.deep_view() == lineage.task_bucket
    &&& event.bucket_id.deep_view() == lineage.bucket_id
    &&& event.fork_seq == lineage.fork_seq
    &&& event.event_schema_version == CURRENT_EVENT_SCHEMA_VERSION
    &&& event.provenance is Recorded
    &&& event.fidelity is Lossless
    &&& event.timestamp_ns == ambient.now_ns
    &&& event.end_timestamp_ns matches Some(end_ns) && read_off_the_clock(end_ns)
        && event.duration_us == (if end_ns >= ambient.now_ns {
        (end_ns - ambient.now_ns) / 1_000
    } else {
        0
    })
}

/// Whether an event that starts is that of the draw.
spec fn starts_draw(
    start: EventStart,
    correlation: Seq<char>,
    occurrence: u32,
    caller: CallLocation,
    ambient: Ambient,
) -> bool {
    &&& is_draw_boundary(start.spec)
    &&& start.caller == caller
    &&& start.receiver is None
    &&& start.correlation_id.deep_view() == Some(correlation)
    &&& start.args@ == JsonView::Object(Seq::empty())
    &&& start.identity matches Some(identity) && is_draw(identity, occurrence, ambient)
    &&& start.state_capture is None
}

/// Whether an output is that of the draw.
spec fn gives_keys(output: RecordedOutput, keys: HashKeys) -> bool {
    &&& output.result@ == keys_image(keys)
    &&& !output.is_error
    &&& output.read_set@.len() == 0
    &&& output.write_set@.len() == 0
    &&& output.result_image is None
    &&& output.pre_image is None
}

proof fn the_draw_has_no_label()
    ensures
        entropy_label(BOUNDARY@) is None,
{
    reveal_strlit("hash_seed");
    reveal_strlit("id");
    reveal_strlit("time");
    assert(BOUNDARY@.len() == 9 && "id"@.len() == 2 && "time"@.len() == 4);
}

proof fn a_draw_is_recorded(
    start: EventStart,
    numbers: Sequences,
    builder: EventBuilder,
    ambient: Ambient,
    run_id: Option<Seq<char>>,
    end_ns: u64,
    output: RecordedOutput,
    event: BoundaryEvent,
    correlation: Seq<char>,
    occurrence: u32,
    caller: CallLocation,
    keys: HashKeys,
)
    requires
        starts_draw(start, correlation, occurrence, caller, ambient),
        started(builder, start, numbers, ambient),
        gives_keys(output, keys),
        read_off_the_clock(end_ns),
        finished(builder, ambient, run_id, end_ns, output, event),
    ensures
        records_draw(event, correlation, occurrence, caller, ambient, run_id, keys),
        event.global_sequence == numbers.global,
        event.request_sequence == numbers.request,
{
    the_draw_has_no_label();
    let (context, whole) = choose|context: FinishContext, whole: EventBuilder|
        finishes_in(context, ambient, run_id, end_ns) && builder.takes(output, whole)
            && #[trigger] whole.finishes(context, output.result, output.is_error, event);
    assert(event.entropy_source.deep_view() == entropy_label(BOUNDARY@));
    assert(texts(output.read_set@) =~= Seq::<Seq<char>>::empty());
    assert(texts(output.write_set@) =~= Seq::<Seq<char>>::empty());
    assert(texts(event.read_set@).len() == event.read_set@.len());
    assert(texts(event.write_set@).len() == event.write_set@.len());
}

/// Draws the keys of a correlation through the hook, as the `occurrence`th call
/// at its site: recorded where the hook records, and given from the recording
/// under replay. A recording without keys stops the request: fresh keys are
/// never drawn under replay.
pub fn draw_and_record<H: DejaHook>(
    hook: &mut H,
    correlation: &str,
    occurrence: u32,
    caller: CallLocation,
    ambient: &Ambient,
) -> (r: Result<HashKeys, FailStop>)
    requires
        old(hook).mode_in(*ambient) is Record ==> old(hook).can_number() && old(
            hook,
        ).can_number_in(Some(correlation@)) && old(hook).can_record(),
        old(hook).mode_in(*ambient) is Replay ==> forall|query: ReplayLookup<'_>|
            draw_lookup(query, occurrence, caller, *ambient) ==> #[trigger] old(hook).can_look_up(
                query,
                *ambient,
            ),
    ensures
        match old(hook).mode_in(*ambient) {
            RuntimeMode::Disabled => *final(hook) == *old(hook) && (r matches Ok(keys)
                && freshly_drawn(keys)),
            RuntimeMode::Record => r matches Ok(keys) && freshly_drawn(keys) && exists|
                numbered: H,
                mid: H,
                event: BoundaryEvent,
            |
                #[trigger]
                old(hook).numbers(numbered, event.global_sequence) && numbered.numbers_in(
                    Some(correlation@),
                    mid,
                    event.request_sequence,
                ) && #[trigger] mid.records(event, *final(hook)) && records_draw(
                    event,
                    correlation@,
                    occurrence,
                    caller,
                    *ambient,
                    mid.run(),
                    keys,
                ),
            RuntimeMode::Replay => exists|query: ReplayLookup<'_>, recorded: Option<Json>|
                draw_lookup(query, occurrence, caller, *ambient) && #[trigger] old(hook).looks_up(
                    query,
                    *ambient,
                    *final(hook),
                    recorded,
                ) && r == drawn_from(recorded.deep_view()),
        },
{
    let observation = draw_observation(correlation, occurrence, caller, ambient);
    let args = || -> (v: Json)
        ensures
            v@ == JsonView::Object(Seq::empty()),
        {
            let none: Vec<(String, Json)> = Vec::new();
            proof {
                broadcast use group_json_view;
                assert(members_view(none@) =~= Seq::<(Seq<char>, JsonView)>::empty());
            }
            Json::Object(none)
        };
    let run = || -> (k: HashKeys)
        ensures
            freshly_drawn(k),
        { draw_keys() };
    let leave = || -> (a: Ambient)
        ensures
            a == *ambient,
        { ambient.clone() };
    let reconstruct = |recorded: Json| -> (k: Reconstructed<HashKeys>)
        ensures
            k == (match keys_in(recorded@) {
                Some(keys) => Reconstructed::Value(keys),
                None => Reconstructed::Failed,
            }),
        {
            match reconstruct_keys(&recorded) {
                Ok(keys) => Reconstructed::Value(keys),
                Err(_) => Reconstructed::Failed,
            }
        };
    let extract = |keys: &HashKeys| -> (o: RecordedOutput)
        ensures
            gives_keys(o, *keys),
        { RecordedOutput::new(capture_keys(keys), false) };
    let ghost obs = observation;
    let r = dispatch(hook, observation, ambient, args, run, leave, reconstruct, extract);
    proof {
        if old(hook).mode_in(*ambient) is Record {
            let keys = r->Ok_0;
            let start = |value: Json|
                EventStart {
                    spec: obs.spec,
                    caller: obs.caller,
                    receiver: None,
                    correlation_id: obs.correlation_id,
                    args: value,
                    identity: Some(obs.identity),
                    state_capture: obs.state_capture,
                };
            let value = choose|value: Json| #[trigger]
                args.ensures((), value) && ran_recorded(
                    *old(hook),
                    start(value),
                    *ambient,
                    run,
                    leave,
                    extract,
                    *hook,
                    keys,
                );
            let start = start(value);
            let (mid, builder, left) = choose|mid: H, builder: EventBuilder, left: Ambient|
                #[trigger]
                starts(*old(hook), start, *ambient, mid, builder) && #[trigger] leave.ensures(
                    (),
                    left,
                ) && recorded(mid, builder, left, keys, extract, *hook);
            let (numbered, numbers) = choose|numbered: H, numbers: Sequences| #[trigger]
                old(hook).numbers(numbered, numbers.global) && numbered.numbers_in(
                    event_correlation(start.correlation_id, *ambient),
                    mid,
                    numbers.request,
                ) && #[trigger] started(builder, start, numbers, *ambient);
            let (output, event, end_ns) = choose|
                output: RecordedOutput,
                event: BoundaryEvent,
                end_ns: u64,
            |
                read_off_the_clock(end_ns) && extract.ensures((&keys,), output) && mid.records(
                    event,
                    *hook,
                ) && #[trigger] finished(builder, *ambient, mid.run(), end_ns, output, event);
            a_draw_is_recorded(
                start,
                numbers,
                builder,
                *ambient,
                mid.run(),
                end_ns,
                output,
                event,
                correlation@,
                occurrence,
                caller,
                keys,
            );
            assert(old(hook).numbers(numbered, event.global_sequence));
            assert(mid.records(event, *hook));
        }
    }
    r
}

/// What a draw gives under replay, by what was recorded.
pub open spec fn drawn_from(recorded: Option<JsonView>) -> Result<HashKeys, FailStop> {
    match recorded {
        None => Err(FailStop::SubstituteMiss),
        Some(v) => match keys_in(v) {
            Some(keys) => Ok(keys),
            None => Err(FailStop::SubstituteUnreconstructable),
        },
    }
}

/// The pair of keys in an image is read off its two members and is there only if
/// both are numbers; under replay a draw gives the recorded pair, stops as a miss
/// where nothing was recorded, and stops as unreadable where no pair was.
pub proof fn draws_are_read_off_the_recording(recorded: JsonView, keys: HashKeys, other: HashKeys)
    ensures
        keys_in(recorded) == Some(keys) <==> recorded.member("k0"@) is Some && recorded.member(
            "k1"@,
        ) is Some && (recorded.member("k0"@)->0).number_u64() == Some(keys.k0) && (recorded.member(
            "k1"@,
        )->0).number_u64() == Some(keys.k1),
        keys_image(keys) == keys_image(other) ==> keys == other,
        keys_image(keys).member("k0"@) == Some(JsonView::Number(decimal(keys.k0 as nat))),
        drawn_from(None) == Err::<HashKeys, FailStop>(FailStop::SubstituteMiss),
        drawn_from(Some(keys_image(keys))) == Ok::<HashKeys, FailStop>(keys),
        keys_in(recorded) is None ==> drawn_from(Some(recorded)) == Err::<HashKeys, FailStop>(
            FailStop::SubstituteUnreconstructable,
        ),
{
    recorded_keys_are_read_back(keys);
    recorded_keys_are_read_back(other);
    reveal_with_fuel(find, 2);
}

/// The event of a draw carries its correlation and the pair that was drawn, so that
/// it is read back from the recording; it is found at the site of the draw alone,
/// and is substituted under replay, never drawn again.
pub proof fn draws_are_recorded_whole(
    event: BoundaryEvent,
    correlation: Seq<char>,
    occurrence: u32,
    caller: CallLocation,
    ambient: Ambient,
    run_id: Option<Seq<char>>,
    keys: HashKeys,
)
    requires
        records_draw(event, correlation, occurrence, caller, ambient, run_id, keys),
    ensures
        keys_in(event.result@) == Some(keys),
        event.response@ == event.result@,
        event.correlation_id.deep_view() == Some(correlation),
        event.boundary@ == "hash_seed"@,
        event.trait_name@ == "deja_runtime::hash_seed"@,
        event.method_name@ == "draw_hash_keys"@,
        event.args@ == JsonView::Object(Seq::empty()),
        event.callsite_identity is Some,
        ({
            let identity = event.callsite_identity->0;
            &&& identity.source is SyntacticHash
            &&& identity.id is None
            &&& identity.occurrence == occurrence
            &&& identity.scope.deep_view() == Some("deja::hash_seed::draw"@)
            &&& identity.lexical_path.deep_view() == Some("deja::hash_seed::draw"@)
            &&& identity.syntax_hash == Some(
                fnv_text(FNV_OFFSET_BASIS, "deja::hash_seed::draw"@),
            )
            &&& identity.caller_function.deep_view() == Some("draw_hash_keys"@)
            &&& identity.span_path.deep_view() == ambient.span_path.deep_view()
        }),
        event.call_file@ == caller.file@,
        event.call_line == caller.line,
        event.call_column == caller.column,
        event.replay_strategy is Substitute,
        event.declaration is Some && event.declaration->0.op == Some(OperationKind::Entropy),
        !event.is_error,
        event.timestamp_ns == ambient.now_ns,
        event.task_id.deep_view() == Some(ambient.task().task_id),
        event.bucket_id.deep_view() == Some(ambient.task().bucket_id),
        event.fork_seq == Some(ambient.task().fork_seq),
        run_id is Some ==> event.recording_run_id.deep_view() == run_id,
{
    recorded_keys_are_read_back(keys);
}

/// The lookup of a draw asks for the very call that a draw is recorded as.
pub proof fn draws_are_looked_up_as_recorded(
    query: ReplayLookup<'_>,
    event: BoundaryEvent,
    correlation: Seq<char>,
    occurrence: u32,
    caller: CallLocation,
    ambient: Ambient,
    run_id: Option<Seq<char>>,
    keys: HashKeys,
)
    requires
        draw_lookup(query, occurrence, caller, ambient),
        records_draw(event, correlation, occurrence, caller, ambient, run_id, keys),
    ensures
        query.boundary@ == event.boundary@,
        query.trait_name@ == event.trait_name@,
        query.method_name@ == event.method_name@,
        query.args@ == event.args@,
        query.callsite_identity is Some,
        event.callsite_identity is Some,
        query.callsite_identity->0.source == event.callsite_identity->0.source,
        query.callsite_identity->0.occurrence == event.callsite_identity->0.occurrence,
        query.callsite_identity->0.syntax_hash == event.callsite_identity->0.syntax_hash,
        query.callsite_identity->0.lexical_path.deep_view()
            == event.callsite_identity->0.lexical_path.deep_view(),
        query.callsite_identity->0.span_path.deep_view()
            == event.callsite_identity->0.span_path.deep_view(),
        query.caller_location is Some,
        query.caller_location->0.file@ == event.call_file@,
        query.caller_location->0.line == event.call_line,
        query.caller_location->0.column == event.call_column,
{
}

} // verus!
