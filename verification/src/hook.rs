//! Hooks: what stands behind the boundaries of a program, to record them, to
//! replay them, or to leave them alone.

use vstd::prelude::*;
use crate::ambient::{recording_mode, Ambient, ReplayLookup};
use crate::event::{BoundaryEvent, CallsiteSource, RuntimeMode};
use crate::graph::next_number;
use crate::json::Json;
use crate::lookup_hook::{hit_result, observation, observed_one, site, LookupTableHook};
use crate::observed::{ExecuteShadowToken, ObservedCallView};
use crate::recording::{DejaRecord, RecordingHook};
use crate::replay_hook::ReplayHook;
use crate::report::ReplayReportView;
use crate::table::CallsiteKeyView;

verus! {

/// A hook behind boundaries. Each operation comes with what it does to the hook
/// and what it gives, for the hook to say; where an operation can run out of
/// numbers, the hook says when it has not. Of an operation that a hook says
/// nothing of, nothing is known, and it can always be asked for; a hook that
/// does not say otherwise is disabled and records no run.
pub trait DejaHook: Sized {
    /// What the hook does with the calls around which this surrounds.
    open spec fn mode_in(&self, ambient: Ambient) -> RuntimeMode {
        RuntimeMode::Disabled
    }

    fn mode(&self, ambient: &Ambient) -> (r: RuntimeMode)
        ensures
            r == self.mode_in(*ambient),
    ;

    /// Whether the hook records or replays.
    fn is_active(&self, ambient: &Ambient) -> (r: bool)
        ensures
            r == !(self.mode_in(*ambient) is Disabled),
    {
        !self.mode(ambient).is_disabled()
    }

    /// Whether the hook replays.
    fn is_replay(&self, ambient: &Ambient) -> (r: bool)
        ensures
            r == (self.mode_in(*ambient) is Replay),
    {
        self.mode(ambient).is_replay()
    }

    /// Whether a call can be looked up.
    open spec fn can_look_up(&self, query: ReplayLookup<'_>, ambient: Ambient) -> bool {
        true
    }

    /// Whether looking a call up leaves the hook like this and gives this.
    open spec fn looks_up(
        &self,
        query: ReplayLookup<'_>,
        ambient: Ambient,
        after: Self,
        result: Option<Json>,
    ) -> bool {
        true
    }

    /// Looks a call up: the recorded result, where there is one to give.
    fn try_replay_with_context(&mut self, query: ReplayLookup<'_>, ambient: &Ambient) -> (r: Option<
        Json,
    >)
        requires
            old(self).can_look_up(query, *ambient),
        ensures
            old(self).looks_up(query, *ambient, *final(self), r),
    ;

    /// Whether looking a call up that is about to be made live leaves the hook
    /// like this and gives this.
    open spec fn peeks(
        &self,
        query: ReplayLookup<'_>,
        ambient: Ambient,
        after: Self,
        token: Option<ExecuteShadowToken>,
    ) -> bool {
        true
    }

    /// Looks a call up that is about to be made live: a token to observe it by,
    /// where the hook can observe it.
    fn execute_shadow_peek(&mut self, query: ReplayLookup<'_>, ambient: &Ambient) -> (r: Option<
        ExecuteShadowToken,
    >)
        requires
            old(self).can_look_up(query, *ambient),
        ensures
            old(self).peeks(query, *ambient, *final(self), r),
    ;

    /// Whether observing a live call leaves the hook like this.
    open spec fn observes(&self, token: ExecuteShadowToken, observed_result: Json, after: Self) -> bool {
        true
    }

    /// Observes a call that was made live.
    fn execute_shadow_observe(&mut self, token: ExecuteShadowToken, observed_result: Json)
        ensures
            old(self).observes(token, observed_result, *final(self)),
    ;

    /// Whether a number among all events is left.
    open spec fn can_number(&self) -> bool {
        true
    }

    /// Whether a number in the request of a correlation is left.
    open spec fn can_number_in(&self, correlation_id: Option<Seq<char>>) -> bool {
        true
    }

    /// Whether an event can be recorded.
    open spec fn can_record(&self) -> bool {
        true
    }

    /// Whether taking a number among all events leaves the hook like this and
    /// gives this.
    open spec fn numbers(&self, after: Self, number: u64) -> bool {
        true
    }

    /// The next position among all events.
    fn next_global_sequence(&mut self) -> (r: u64)
        requires
            old(self).can_number(),
        ensures
            old(self).numbers(*final(self), r),
            forall|c: Option<Seq<char>>|
                old(self).can_number_in(c) ==> #[trigger] final(self).can_number_in(c),
            old(self).can_record() ==> final(self).can_record(),
    ;

    /// Whether taking a number in the request of a correlation leaves the hook
    /// like this and gives this.
    open spec fn numbers_in(&self, correlation_id: Option<Seq<char>>, after: Self, number: u64) -> bool {
        true
    }

    /// The next position in the request of a correlation.
    fn next_request_sequence(&mut self, correlation_id: Option<&str>) -> (r: u64)
        requires
            old(self).can_number_in(correlation_id.deep_view()),
        ensures
            old(self).numbers_in(correlation_id.deep_view(), *final(self), r),
            old(self).can_record() ==> final(self).can_record(),
    ;

    /// Whether recording an event leaves the hook like this.
    open spec fn records(&self, event: BoundaryEvent, after: Self) -> bool {
        true
    }

    /// Records an event.
    fn record(&mut self, event: BoundaryEvent)
        requires
            old(self).can_record(),
        ensures
            old(self).records(event, *final(self)),
    ;

    /// Whether an occurrence at a call site is left.
    open spec fn can_count(&self, key: CallsiteKeyView) -> bool {
        true
    }

    /// Whether counting a call at its site leaves the hook like this and gives
    /// this.
    open spec fn counts(&self, key: CallsiteKeyView, after: Self, occurrence: u32) -> bool {
        true
    }

    /// The occurrence of a call at its site.
    fn next_callsite_occurrence(
        &mut self,
        correlation_id: Option<&str>,
        source: CallsiteSource,
        scope: Option<&str>,
        ambient: &Ambient,
    ) -> (r: u32)
        requires
            old(self).can_count(
                site(correlation_id.deep_view(), *ambient, source, scope.deep_view()),
            ),
        ensures
            old(self).counts(
                site(correlation_id.deep_view(), *ambient, source, scope.deep_view()),
                *final(self),
                r,
            ),
    ;

    /// The run the hook records.
    open spec fn run(&self) -> Option<Seq<char>> {
        None
    }

    fn recording_run_id(&self) -> (r: Option<&str>)
        ensures
            r.deep_view() == self.run(),
    ;
}

/// A hook that leaves every call alone.
#[derive(Debug, Clone, Copy, PartialEq, Eq, Structural)]
pub struct DisabledHook;

impl Default for DisabledHook {
    fn default() -> (r: DisabledHook) {
        DisabledHook
    }
}

impl DejaHook for DisabledHook {
    open spec fn mode_in(&self, ambient: Ambient) -> RuntimeMode {
        RuntimeMode::Disabled
    }

    fn mode(&self, ambient: &Ambient) -> (r: RuntimeMode) {
        RuntimeMode::Disabled
    }

    open spec fn can_look_up(&self, query: ReplayLookup<'_>, ambient: Ambient) -> bool {
        true
    }

    open spec fn looks_up(
        &self,
        query: ReplayLookup<'_>,
        ambient: Ambient,
        after: DisabledHook,
        result: Option<Json>,
    ) -> bool {
        result is None
    }

    fn try_replay_with_context(&mut self, query: ReplayLookup<'_>, ambient: &Ambient) -> (r: Option<
        Json,
    >) {
        None
    }

    open spec fn peeks(
        &self,
        query: ReplayLookup<'_>,
        ambient: Ambient,
        after: DisabledHook,
        token: Option<ExecuteShadowToken>,
    ) -> bool {
        token is None
    }

    fn execute_shadow_peek(&mut self, query: ReplayLookup<'_>, ambient: &Ambient) -> (r: Option<
        ExecuteShadowToken,
    >) {
        None
    }

    open spec fn observes(
        &self,
        token: ExecuteShadowToken,
        observed_result: Json,
        after: DisabledHook,
    ) -> bool {
        true
    }

    fn execute_shadow_observe(&mut self, token: ExecuteShadowToken, observed_result: Json) {
    }

    open spec fn can_number(&self) -> bool {
        true
    }

    open spec fn can_number_in(&self, correlation_id: Option<Seq<char>>) -> bool {
        true
    }

    open spec fn can_record(&self) -> bool {
        true
    }

    open spec fn numbers(&self, after: DisabledHook, number: u64) -> bool {
        number == 0
    }

    fn next_global_sequence(&mut self) -> (r: u64) {
        0
    }

    open spec fn numbers_in(
        &self,
        correlation_id: Option<Seq<char>>,
        after: DisabledHook,
        number: u64,
    ) -> bool {
        number == 0
    }

    fn next_request_sequence(&mut self, correlation_id: Option<&str>) -> (r: u64) {
        0
    }

    open spec fn records(&self, event: BoundaryEvent, after: DisabledHook) -> bool {
        true
    }

    fn record(&mut self, event: BoundaryEvent) {
    }

    open spec fn can_count(&self, key: CallsiteKeyView) -> bool {
        true
    }

    open spec fn counts(
        &self,
        key: CallsiteKeyView,
        after: DisabledHook,
        occurrence: u32,
    ) -> bool {
        occurrence == 0
    }

    fn next_callsite_occurrence(
        &mut self,
        correlation_id: Option<&str>,
        source: CallsiteSource,
        scope: Option<&str>,
        ambient: &Ambient,
    ) -> (r: u32) {
        0
    }

    open spec fn run(&self) -> Option<Seq<char>> {
        None
    }

    fn recording_run_id(&self) -> (r: Option<&str>) {
        None
    }
}

impl DejaHook for RecordingHook {
    open spec fn mode_in(&self, ambient: Ambient) -> RuntimeMode {
        recording_mode(self.writer_active, ambient.decision)
    }

    fn mode(&self, ambient: &Ambient) -> (r: RuntimeMode) {
        RecordingHook::mode(self, ambient)
    }

    open spec fn can_look_up(&self, query: ReplayLookup<'_>, ambient: Ambient) -> bool {
        true
    }

    open spec fn looks_up(
        &self,
        query: ReplayLookup<'_>,
        ambient: Ambient,
        after: RecordingHook,
        result: Option<Json>,
    ) -> bool {
        result is None && after == *self
    }

    fn try_replay_with_context(&mut self, query: ReplayLookup<'_>, ambient: &Ambient) -> (r: Option<
        Json,
    >) {
        None
    }

    open spec fn peeks(
        &self,
        query: ReplayLookup<'_>,
        ambient: Ambient,
        after: RecordingHook,
        token: Option<ExecuteShadowToken>,
    ) -> bool {
        token is None && after == *self
    }

    fn execute_shadow_peek(&mut self, query: ReplayLookup<'_>, ambient: &Ambient) -> (r: Option<
        ExecuteShadowToken,
    >) {
        None
    }

    open spec fn observes(
        &self,
        token: ExecuteShadowToken,
        observed_result: Json,
        after: RecordingHook,
    ) -> bool {
        after == *self
    }

    fn execute_shadow_observe(&mut self, token: ExecuteShadowToken, observed_result: Json) {
    }

    open spec fn can_number(&self) -> bool {
        true
    }

    open spec fn can_number_in(&self, correlation_id: Option<Seq<char>>) -> bool {
        correlation_id is Some ==> self.upcoming_request(correlation_id) < u64::MAX
    }

    open spec fn can_record(&self) -> bool {
        true
    }

    open spec fn numbers(&self, after: RecordingHook, number: u64) -> bool {
        &&& number == self.global_counter
        &&& after == (RecordingHook { global_counter: next_number(self.global_counter), ..*self })
    }

    fn next_global_sequence(&mut self) -> (r: u64) {
        let ghost before = *self;
        let number = RecordingHook::next_global_sequence(self);
        proof {
            assert forall|c: Option<Seq<char>>|
                before.can_number_in(c) implies #[trigger] self.can_number_in(c) by {
                assert(self.upcoming_request(c) == before.upcoming_request(c));
            }
        }
        number
    }

    open spec fn numbers_in(
        &self,
        correlation_id: Option<Seq<char>>,
        after: RecordingHook,
        number: u64,
    ) -> bool {
        &&& number == self.upcoming_request(correlation_id)
        &&& forall|c: Option<Seq<char>>| #[trigger]
            after.upcoming_request(c) == (if c == correlation_id {
                next_number(self.upcoming_request(c))
            } else {
                self.upcoming_request(c)
            })
        &&& after == (RecordingHook {
            request_counters: after.request_counters,
            uncorrelated_counter: after.uncorrelated_counter,
            ..*self
        })
    }

    fn next_request_sequence(&mut self, correlation_id: Option<&str>) -> (r: u64) {
        RecordingHook::next_request_sequence(self, correlation_id)
    }

    open spec fn records(&self, event: BoundaryEvent, after: RecordingHook) -> bool {
        &&& after.records@ == self.records@.push(DejaRecord::BoundaryEvent(Box::new(event)))
        &&& after == (RecordingHook { records: after.records, ..*self })
    }

    fn record(&mut self, event: BoundaryEvent) {
        RecordingHook::record(self, event);
    }

    open spec fn can_count(&self, key: CallsiteKeyView) -> bool {
        self.callsite_occurrence.upcoming(key, 0) < u32::MAX
    }

    open spec fn counts(
        &self,
        key: CallsiteKeyView,
        after: RecordingHook,
        occurrence: u32,
    ) -> bool {
        &&& occurrence == self.callsite_occurrence.upcoming(key, 0)
        &&& after.callsite_occurrence.upcoming(key, 0) == occurrence + 1
        &&& forall|k: CallsiteKeyView|
            k != key ==> #[trigger] after.callsite_occurrence.upcoming(k, 0)
                == self.callsite_occurrence.upcoming(k, 0)
        &&& after == (RecordingHook { callsite_occurrence: after.callsite_occurrence, ..*self })
    }

    fn next_callsite_occurrence(
        &mut self,
        correlation_id: Option<&str>,
        source: CallsiteSource,
        scope: Option<&str>,
        ambient: &Ambient,
    ) -> (r: u32) {
        RecordingHook::next_callsite_occurrence(self, correlation_id, source, scope, ambient)
    }

    open spec fn run(&self) -> Option<Seq<char>> {
        Some(self.run_id@)
    }

    fn recording_run_id(&self) -> (r: Option<&str>) {
        Some(RecordingHook::recording_run_id(self))
    }
}

/// Whether two replays are at the same places of the same tapes, with the same
/// settings.
pub open spec fn same_tapes(a: ReplayHook, b: ReplayHook) -> bool {
    &&& a.events() == b.events()
    &&& a.config() == b.config()
    &&& forall|c: Option<Seq<char>>| #[trigger] a.position(c) == b.position(c)
}

/// Whether two replays have counted the same calls at each site.
pub open spec fn same_occurrences(a: ReplayHook, b: ReplayHook) -> bool {
    forall|key: CallsiteKeyView| #[trigger] a.occurrence(key) == b.occurrence(key)
}

impl DejaHook for ReplayHook {
    open spec fn mode_in(&self, ambient: Ambient) -> RuntimeMode {
        RuntimeMode::Replay
    }

    fn mode(&self, ambient: &Ambient) -> (r: RuntimeMode) {
        RuntimeMode::Replay
    }

    open spec fn can_look_up(&self, query: ReplayLookup<'_>, ambient: Ambient) -> bool {
        self.wf() && self.report().has_room(2)
    }

    open spec fn looks_up(
        &self,
        query: ReplayLookup<'_>,
        ambient: Ambient,
        after: ReplayHook,
        result: Option<Json>,
    ) -> bool {
        let c = ambient.correlation_id.deep_view();
        let done = self.next_context_turn(c, query);
        result.deep_view() == done.result && after.moved_on(*self, c, done)
    }

    fn try_replay_with_context(&mut self, query: ReplayLookup<'_>, ambient: &Ambient) -> (r: Option<
        Json,
    >) {
        ReplayHook::try_replay_with_context(self, query, ambient)
    }

    open spec fn peeks(
        &self,
        query: ReplayLookup<'_>,
        ambient: Ambient,
        after: ReplayHook,
        token: Option<ExecuteShadowToken>,
    ) -> bool {
        token is None && after == *self
    }

    fn execute_shadow_peek(&mut self, query: ReplayLookup<'_>, ambient: &Ambient) -> (r: Option<
        ExecuteShadowToken,
    >) {
        None
    }

    open spec fn observes(
        &self,
        token: ExecuteShadowToken,
        observed_result: Json,
        after: ReplayHook,
    ) -> bool {
        after == *self
    }

    fn execute_shadow_observe(&mut self, token: ExecuteShadowToken, observed_result: Json) {
    }

    open spec fn can_number(&self) -> bool {
        self.wf() && self.upcoming_sequence() < u64::MAX
    }

    open spec fn can_number_in(&self, correlation_id: Option<Seq<char>>) -> bool {
        true
    }

    open spec fn can_record(&self) -> bool {
        self.wf() && self.report().total_calls < u64::MAX
    }

    open spec fn numbers(&self, after: ReplayHook, number: u64) -> bool {
        &&& after.wf()
        &&& number == self.upcoming_sequence()
        &&& after.upcoming_sequence() == number + 1
        &&& after.report() == self.report()
        &&& same_tapes(*self, after)
        &&& same_occurrences(*self, after)
    }

    fn next_global_sequence(&mut self) -> (r: u64) {
        ReplayHook::next_global_sequence(self)
    }

    open spec fn numbers_in(
        &self,
        correlation_id: Option<Seq<char>>,
        after: ReplayHook,
        number: u64,
    ) -> bool {
        number == self.position(correlation_id) && after == *self
    }

    fn next_request_sequence(&mut self, correlation_id: Option<&str>) -> (r: u64) {
        ReplayHook::next_request_sequence(self, correlation_id)
    }

    open spec fn records(&self, event: BoundaryEvent, after: ReplayHook) -> bool {
        &&& after.wf()
        &&& after.upcoming_sequence() == self.upcoming_sequence()
        &&& after.report() == (ReplayReportView {
            total_calls: (self.report().total_calls + 1) as u64,
            ..self.report()
        })
        &&& same_tapes(*self, after)
        &&& same_occurrences(*self, after)
    }

    fn record(&mut self, event: BoundaryEvent) {
        ReplayHook::record(self, event);
    }

    open spec fn can_count(&self, key: CallsiteKeyView) -> bool {
        self.wf() && self.occurrence(key) < u32::MAX
    }

    open spec fn counts(
        &self,
        key: CallsiteKeyView,
        after: ReplayHook,
        occurrence: u32,
    ) -> bool {
        &&& after.wf()
        &&& occurrence == self.occurrence(key)
        &&& after.occurrence(key) == occurrence + 1
        &&& forall|k: CallsiteKeyView|
            k != key ==> #[trigger] after.occurrence(k) == self.occurrence(k)
        &&& after.upcoming_sequence() == self.upcoming_sequence()
        &&& after.report() == self.report()
        &&& same_tapes(*self, after)
    }

    fn next_callsite_occurrence(
        &mut self,
        correlation_id: Option<&str>,
        source: CallsiteSource,
        scope: Option<&str>,
        ambient: &Ambient,
    ) -> (r: u32) {
        ReplayHook::next_callsite_occurrence(self, correlation_id, source, scope, ambient)
    }

    open spec fn run(&self) -> Option<Seq<char>> {
        None
    }

    fn recording_run_id(&self) -> (r: Option<&str>) {
        None
    }
}

impl DejaHook for LookupTableHook {
    open spec fn mode_in(&self, ambient: Ambient) -> RuntimeMode {
        RuntimeMode::Replay
    }

    fn mode(&self, ambient: &Ambient) -> (r: RuntimeMode) {
        RuntimeMode::Replay
    }

    open spec fn can_look_up(&self, query: ReplayLookup<'_>, ambient: Ambient) -> bool {
        self.has_room(query, ambient)
    }

    open spec fn looks_up(
        &self,
        query: ReplayLookup<'_>,
        ambient: Ambient,
        after: LookupTableHook,
        result: Option<Json>,
    ) -> bool {
        let hit = self.hit(query, ambient);
        &&& result.deep_view() == hit_result(hit)
        &&& LookupTableHook::counts(*self, query, ambient, after)
        &&& observed_one(
            *self,
            after,
            observation(
                query,
                ambient,
                hit,
                hit_result(hit),
                crate::event::Provenance::Recorded,
            ),
        )
    }

    fn try_replay_with_context(&mut self, query: ReplayLookup<'_>, ambient: &Ambient) -> (r: Option<
        Json,
    >) {
        LookupTableHook::try_replay_with_context(self, query, ambient)
    }

    open spec fn peeks(
        &self,
        query: ReplayLookup<'_>,
        ambient: Ambient,
        after: LookupTableHook,
        token: Option<ExecuteShadowToken>,
    ) -> bool {
        &&& token matches Some(t) && t.observed@ == observation(
            query,
            ambient,
            self.hit(query, ambient),
            None,
            crate::event::Provenance::Shadow,
        )
        &&& LookupTableHook::counts(*self, query, ambient, after)
        &&& after.sink == self.sink
    }

    fn execute_shadow_peek(&mut self, query: ReplayLookup<'_>, ambient: &Ambient) -> (r: Option<
        ExecuteShadowToken,
    >) {
        LookupTableHook::execute_shadow_peek(self, query, ambient)
    }

    open spec fn observes(
        &self,
        token: ExecuteShadowToken,
        observed_result: Json,
        after: LookupTableHook,
    ) -> bool {
        &&& observed_one(
            *self,
            after,
            ObservedCallView { observed_result: Some(observed_result@), ..token.observed@ },
        )
        &&& after == (LookupTableHook { sink: after.sink, ..*self })
    }

    fn execute_shadow_observe(&mut self, token: ExecuteShadowToken, observed_result: Json) {
        LookupTableHook::execute_shadow_observe(self, token, observed_result);
    }

    open spec fn can_number(&self) -> bool {
        true
    }

    open spec fn can_number_in(&self, correlation_id: Option<Seq<char>>) -> bool {
        true
    }

    open spec fn can_record(&self) -> bool {
        true
    }

    open spec fn numbers(&self, after: LookupTableHook, number: u64) -> bool {
        &&& number == self.global_counter
        &&& after == (LookupTableHook { global_counter: next_number(self.global_counter), ..*self })
    }

    fn next_global_sequence(&mut self) -> (r: u64) {
        LookupTableHook::next_global_sequence(self)
    }

    open spec fn numbers_in(
        &self,
        correlation_id: Option<Seq<char>>,
        after: LookupTableHook,
        number: u64,
    ) -> bool {
        number == 0 && after == *self
    }

    fn next_request_sequence(&mut self, correlation_id: Option<&str>) -> (r: u64) {
        LookupTableHook::next_request_sequence(self, correlation_id)
    }

    open spec fn records(&self, event: BoundaryEvent, after: LookupTableHook) -> bool {
        if event.boundary@ == "http_incoming"@ {
            &&& observed_one(*self, after, crate::lookup_hook::finalized(event))
            &&& after == (LookupTableHook { sink: after.sink, ..*self })
        } else {
            after == *self
        }
    }

    fn record(&mut self, event: BoundaryEvent) {
        LookupTableHook::record(self, event);
    }

    open spec fn can_count(&self, key: CallsiteKeyView) -> bool {
        self.callsite_occurrence.upcoming(key, 0) < u32::MAX
    }

    open spec fn counts(
        &self,
        key: CallsiteKeyView,
        after: LookupTableHook,
        occurrence: u32,
    ) -> bool {
        &&& occurrence == self.callsite_occurrence.upcoming(key, 0)
        &&& after.callsite_occurrence.upcoming(key, 0) == occurrence + 1
        &&& forall|k: CallsiteKeyView|
            k != key ==> #[trigger] after.callsite_occurrence.upcoming(k, 0)
                == self.callsite_occurrence.upcoming(k, 0)
        &&& after == (LookupTableHook { callsite_occurrence: after.callsite_occurrence, ..*self })
    }

    fn next_callsite_occurrence(
        &mut self,
        correlation_id: Option<&str>,
        source: CallsiteSource,
        scope: Option<&str>,
        ambient: &Ambient,
    ) -> (r: u32) {
        LookupTableHook::next_callsite_occurrence(self, correlation_id, source, scope, ambient)
    }

    open spec fn run(&self) -> Option<Seq<char>> {
        None
    }

    fn recording_run_id(&self) -> (r: Option<&str>) {
        None
    }
}

/// The hook of a process.
pub enum RuntimeHook {
    /// Records every call.
    Recording(RecordingHook),
    /// Replays along the tape of a recording.
    Replay(ReplayHook),
    /// Replays out of a lookup table.
    LookupReplay(LookupTableHook),
    /// Leaves every call alone.
    Disabled(DisabledHook),
}

impl RuntimeHook {
    /// The name of what the hook does.
    pub fn variant_name(&self) -> (r: &'static str)
        ensures
            r@ == (match *self {
                RuntimeHook::Recording(_) => "recording"@,
                RuntimeHook::Replay(_) => "replay"@,
                RuntimeHook::LookupReplay(_) => "lookup_replay"@,
                RuntimeHook::Disabled(_) => "disabled"@,
            }),
    {
        match self {
            RuntimeHook::Recording(_) => "recording",
            RuntimeHook::Replay(_) => "replay",
            RuntimeHook::LookupReplay(_) => "lookup_replay",
            RuntimeHook::Disabled(_) => "disabled",
        }
    }
}

impl DejaHook for RuntimeHook {
    open spec fn mode_in(&self, ambient: Ambient) -> RuntimeMode {
        match *self {
            RuntimeHook::Recording(h) => h.mode_in(ambient),
            RuntimeHook::Replay(h) => h.mode_in(ambient),
            RuntimeHook::LookupReplay(h) => h.mode_in(ambient),
            RuntimeHook::Disabled(h) => h.mode_in(ambient),
        }
    }

    fn mode(&self, ambient: &Ambient) -> (r: RuntimeMode) {
        match self {
            RuntimeHook::Recording(h) => DejaHook::mode(h, ambient),
            RuntimeHook::Replay(h) => DejaHook::mode(h, ambient),
            RuntimeHook::LookupReplay(h) => DejaHook::mode(h, ambient),
            RuntimeHook::Disabled(h) => DejaHook::mode(h, ambient),
        }
    }

    open spec fn can_look_up(&self, query: ReplayLookup<'_>, ambient: Ambient) -> bool {
        match *self {
            RuntimeHook::Recording(h) => h.can_look_up(query, ambient),
            RuntimeHook::Replay(h) => h.can_look_up(query, ambient),
            RuntimeHook::LookupReplay(h) => h.can_look_up(query, ambient),
            RuntimeHook::Disabled(h) => h.can_look_up(query, ambient),
        }
    }

    open spec fn looks_up(
        &self,
        query: ReplayLookup<'_>,
        ambient: Ambient,
        after: RuntimeHook,
        result: Option<Json>,
    ) -> bool {
        match (*self, after) {
            (RuntimeHook::Recording(a), RuntimeHook::Recording(b)) => a.looks_up(query, ambient, b, result),
            (RuntimeHook::Replay(a), RuntimeHook::Replay(b)) => a.looks_up(query, ambient, b, result),
            (RuntimeHook::LookupReplay(a), RuntimeHook::LookupReplay(b)) => a.looks_up(query, ambient, b, result),
            (RuntimeHook::Disabled(a), RuntimeHook::Disabled(b)) => a.looks_up(query, ambient, b, result),
            _ => false,
        }
    }

    fn try_replay_with_context(&mut self, query: ReplayLookup<'_>, ambient: &Ambient) -> (r: Option<
        Json,
    >) {
        match self {
            RuntimeHook::Recording(h) => DejaHook::try_replay_with_context(h, query, ambient),
            RuntimeHook::Replay(h) => DejaHook::try_replay_with_context(h, query, ambient),
            RuntimeHook::LookupReplay(h) => DejaHook::try_replay_with_context(h, query, ambient),
            RuntimeHook::Disabled(h) => DejaHook::try_replay_with_context(h, query, ambient),
        }
    }

    open spec fn peeks(
        &self,
        query: ReplayLookup<'_>,
        ambient: Ambient,
        after: RuntimeHook,
        token: Option<ExecuteShadowToken>,
    ) -> bool {
        match (*self, after) {
            (RuntimeHook::Recording(a), RuntimeHook::Recording(b)) => a.peeks(query, ambient, b, token),
            (RuntimeHook::Replay(a), RuntimeHook::Replay(b)) => a.peeks(query, ambient, b, token),
            (RuntimeHook::LookupReplay(a), RuntimeHook::LookupReplay(b)) => a.peeks(query, ambient, b, token),
            (RuntimeHook::Disabled(a), RuntimeHook::Disabled(b)) => a.peeks(query, ambient, b, token),
            _ => false,
        }
    }

    fn execute_shadow_peek(&mut self, query: ReplayLookup<'_>, ambient: &Ambient) -> (r: Option<
        ExecuteShadowToken,
    >) {
        match self {
            RuntimeHook::Recording(h) => DejaHook::execute_shadow_peek(h, query, ambient),
            RuntimeHook::Replay(h) => DejaHook::execute_shadow_peek(h, query, ambient),
            RuntimeHook::LookupReplay(h) => DejaHook::execute_shadow_peek(h, query, ambient),
            RuntimeHook::Disabled(h) => DejaHook::execute_shadow_peek(h, query, ambient),
        }
    }

    open spec fn observes(
        &self,
        token: ExecuteShadowToken,
        observed_result: Json,
        after: RuntimeHook,
    ) -> bool {
        match (*self, after) {
            (RuntimeHook::Recording(a), RuntimeHook::Recording(b)) => a.observes(token, observed_result, b),
            (RuntimeHook::Replay(a), RuntimeHook::Replay(b)) => a.observes(token, observed_result, b),
            (RuntimeHook::LookupReplay(a), RuntimeHook::LookupReplay(b)) => a.observes(token, observed_result, b),
            (RuntimeHook::Disabled(a), RuntimeHook::Disabled(b)) => a.observes(token, observed_result, b),
            _ => false,
        }
    }

    fn execute_shadow_observe(&mut self, token: ExecuteShadowToken, observed_result: Json) {
        match self {
            RuntimeHook::Recording(h) => DejaHook::execute_shadow_observe(h, token, observed_result),
            RuntimeHook::Replay(h) => DejaHook::execute_shadow_observe(h, token, observed_result),
            RuntimeHook::LookupReplay(h) => DejaHook::execute_shadow_observe(h, token, observed_result),
            RuntimeHook::Disabled(h) => DejaHook::execute_shadow_observe(h, token, observed_result),
        }
    }

    open spec fn can_number(&self) -> bool {
        match *self {
            RuntimeHook::Recording(h) => h.can_number(),
            RuntimeHook::Replay(h) => h.can_number(),
            RuntimeHook::LookupReplay(h) => h.can_number(),
            RuntimeHook::Disabled(h) => h.can_number(),
        }
    }

    open spec fn can_number_in(&self, correlation_id: Option<Seq<char>>) -> bool {
        match *self {
            RuntimeHook::Recording(h) => h.can_number_in(correlation_id),
            RuntimeHook::Replay(h) => h.can_number_in(correlation_id),
            RuntimeHook::LookupReplay(h) => h.can_number_in(correlation_id),
            RuntimeHook::Disabled(h) => h.can_number_in(correlation_id),
        }
    }

    open spec fn can_record(&self) -> bool {
        match *self {
            RuntimeHook::Recording(h) => h.can_record(),
            RuntimeHook::Replay(h) => h.can_record(),
            RuntimeHook::LookupReplay(h) => h.can_record(),
            RuntimeHook::Disabled(h) => h.can_record(),
        }
    }

    open spec fn numbers(
        &self,
        after: RuntimeHook,
        number: u64,
    ) -> bool {
        match (*self, after) {
            (RuntimeHook::Recording(a), RuntimeHook::Recording(b)) => a.numbers(b, number),
            (RuntimeHook::Replay(a), RuntimeHook::Replay(b)) => a.numbers(b, number),
            (RuntimeHook::LookupReplay(a), RuntimeHook::LookupReplay(b)) => a.numbers(b, number),
            (RuntimeHook::Disabled(a), RuntimeHook::Disabled(b)) => a.numbers(b, number),
            _ => false,
        }
    }

    fn next_global_sequence(&mut self) -> (r: u64) {
        match self {
            RuntimeHook::Recording(h) => DejaHook::next_global_sequence(h),
            RuntimeHook::Replay(h) => DejaHook::next_global_sequence(h),
            RuntimeHook::LookupReplay(h) => DejaHook::next_global_sequence(h),
            RuntimeHook::Disabled(h) => DejaHook::next_global_sequence(h),
        }
    }

    open spec fn numbers_in(
        &self,
        correlation_id: Option<Seq<char>>,
        after: RuntimeHook,
        number: u64,
    ) -> bool {
        match (*self, after) {
            (RuntimeHook::Recording(a), RuntimeHook::Recording(b)) => a.numbers_in(correlation_id, b, number),
            (RuntimeHook::Replay(a), RuntimeHook::Replay(b)) => a.numbers_in(correlation_id, b, number),
            (RuntimeHook::LookupReplay(a), RuntimeHook::LookupReplay(b)) => a.numbers_in(correlation_id, b, number),
            (RuntimeHook::Disabled(a), RuntimeHook::Disabled(b)) => a.numbers_in(correlation_id, b, number),
            _ => false,
        }
    }

    fn next_request_sequence(&mut self, correlation_id: Option<&str>) -> (r: u64) {
        match self {
            RuntimeHook::Recording(h) => DejaHook::next_request_sequence(h, correlation_id),
            RuntimeHook::Replay(h) => DejaHook::next_request_sequence(h, correlation_id),
            RuntimeHook::LookupReplay(h) => DejaHook::next_request_sequence(h, correlation_id),
            RuntimeHook::Disabled(h) => DejaHook::next_request_sequence(h, correlation_id),
        }
    }

    open spec fn records(
        &self,
        event: BoundaryEvent,
        after: RuntimeHook,
    ) -> bool {
        match (*self, after) {
            (RuntimeHook::Recording(a), RuntimeHook::Recording(b)) => a.records(event, b),
            (RuntimeHook::Replay(a), RuntimeHook::Replay(b)) => a.records(event, b),
            (RuntimeHook::LookupReplay(a), RuntimeHook::LookupReplay(b)) => a.records(event, b),
            (RuntimeHook::Disabled(a), RuntimeHook::Disabled(b)) => a.records(event, b),
            _ => false,
        }
    }

    fn record(&mut self, event: BoundaryEvent) {
        match self {
            RuntimeHook::Recording(h) => DejaHook::record(h, event),
            RuntimeHook::Replay(h) => DejaHook::record(h, event),
            RuntimeHook::LookupReplay(h) => DejaHook::record(h, event),
            RuntimeHook::Disabled(h) => DejaHook::record(h, event),
        }
    }

    open spec fn can_count(&self, key: CallsiteKeyView) -> bool {
        match *self {
            RuntimeHook::Recording(h) => h.can_count(key),
            RuntimeHook::Replay(h) => h.can_count(key),
            RuntimeHook::LookupReplay(h) => h.can_count(key),
            RuntimeHook::Disabled(h) => h.can_count(key),
        }
    }

    open spec fn counts(
        &self,
        key: CallsiteKeyView,
        after: RuntimeHook,
        occurrence: u32,
    ) -> bool {
        match (*self, after) {
            (RuntimeHook::Recording(a), RuntimeHook::Recording(b)) => a.counts(key, b, occurrence),
            (RuntimeHook::Replay(a), RuntimeHook::Replay(b)) => a.counts(key, b, occurrence),
            (RuntimeHook::LookupReplay(a), RuntimeHook::LookupReplay(b)) => DejaHook::counts(
                &a,
                key,
                b,
                occurrence,
            ),
            (RuntimeHook::Disabled(a), RuntimeHook::Disabled(b)) => a.counts(key, b, occurrence),
            _ => false,
        }
    }

    fn next_callsite_occurrence(
        &mut self,
        correlation_id: Option<&str>,
        source: CallsiteSource,
        scope: Option<&str>,
        ambient: &Ambient,
    ) -> (r: u32) {
        match self {
            RuntimeHook::Recording(h) => DejaHook::next_callsite_occurrence(h, correlation_id, source, scope, ambient),
            RuntimeHook::Replay(h) => DejaHook::next_callsite_occurrence(h, correlation_id, source, scope, ambient),
            RuntimeHook::LookupReplay(h) => DejaHook::next_callsite_occurrence(h, correlation_id, source, scope, ambient),
            RuntimeHook::Disabled(h) => DejaHook::next_callsite_occurrence(h, correlation_id, source, scope, ambient),
        }
    }

    open spec fn run(&self) -> Option<Seq<char>> {
        match *self {
            RuntimeHook::Recording(h) => h.run(),
            RuntimeHook::Replay(h) => h.run(),
            RuntimeHook::LookupReplay(h) => h.run(),
            RuntimeHook::Disabled(h) => h.run(),
        }
    }

    fn recording_run_id(&self) -> (r: Option<&str>) {
        match self {
            RuntimeHook::Recording(h) => DejaHook::recording_run_id(h),
            RuntimeHook::Replay(h) => DejaHook::recording_run_id(h),
            RuntimeHook::LookupReplay(h) => DejaHook::recording_run_id(h),
            RuntimeHook::Disabled(h) => DejaHook::recording_run_id(h),
        }
    }
}

/// The hook of a process does what the hook it holds does, and stays of its kind: a
/// recorder records behind what it recorded, gives the next number and looks
/// nothing up; a replay answers by its tape or its table, and the table observes
/// the call; a disabled hook leaves everything alone.
pub proof fn hooks_of_processes_do_what_they_hold(
    recording: RecordingHook,
    tape: ReplayHook,
    table: LookupTableHook,
    disabled: DisabledHook,
    query: ReplayLookup<'_>,
    ambient: Ambient,
    event: BoundaryEvent,
    after: RuntimeHook,
    result: Option<Json>,
    number: u64,
)
    ensures
        RuntimeHook::Recording(recording).mode_in(ambient) is Record <==> recording.writer_active
            && !(ambient.decision is Some && ambient.decision->0 is Skip),
        RuntimeHook::Recording(recording).mode_in(ambient) is Replay ==> false,
        RuntimeHook::Replay(tape).mode_in(ambient) is Replay,
        RuntimeHook::LookupReplay(table).mode_in(ambient) is Replay,
        RuntimeHook::Disabled(disabled).mode_in(ambient) is Disabled,
        RuntimeHook::Recording(recording).records(event, after) ==> after is Recording
            && after->Recording_0.records@ == recording.records@.push(
            DejaRecord::BoundaryEvent(Box::new(event)),
        ) && after->Recording_0.global_counter == recording.global_counter,
        RuntimeHook::Recording(recording).numbers(after, number) ==> number
            == recording.global_counter && after is Recording && after->Recording_0.global_counter
            == next_number(number) && after->Recording_0.records == recording.records,
        RuntimeHook::Recording(recording).looks_up(query, ambient, after, result) ==> result is None
            && after == RuntimeHook::Recording(recording),
        RuntimeHook::Recording(recording).run() == Some(recording.run_id@),
        RuntimeHook::Replay(tape).run() is None,
        RuntimeHook::LookupReplay(table).run() is None,
        RuntimeHook::Replay(tape).looks_up(query, ambient, after, result) ==> {
            let done = tape.next_context_turn(ambient.correlation_id.deep_view(), query);
            after is Replay && result.deep_view() == done.result && after->Replay_0.moved_on(
                tape,
                ambient.correlation_id.deep_view(),
                done,
            )
        },
        RuntimeHook::LookupReplay(table).looks_up(query, ambient, after, result)
            ==> after is LookupReplay && result.deep_view() == hit_result(
            table.hit(query, ambient),
        ) && after->LookupReplay_0.sink.calls@.len() == table.sink.calls@.len() + 1
            && after->LookupReplay_0.sink.calls@.last()@.observed_result == result.deep_view()
            && after->LookupReplay_0.table == table.table,
        RuntimeHook::LookupReplay(table).records(event, after) && event.boundary@
            != "http_incoming"@ ==> after == RuntimeHook::LookupReplay(table),
        RuntimeHook::LookupReplay(table).records(event, after) && event.boundary@
            == "http_incoming"@ ==> after is LookupReplay
            && after->LookupReplay_0.sink.calls@.len() == table.sink.calls@.len() + 1
            && after->LookupReplay_0.sink.calls@.last()@.observed_result == Some(event.result@),
        RuntimeHook::Disabled(disabled).looks_up(query, ambient, after, result) ==> result is None,
        RuntimeHook::Replay(tape).records(event, after) ==> after is Replay
            && after->Replay_0.report().total_calls == (tape.report().total_calls + 1) as u64
            && after->Replay_0.report().matched_calls == tape.report().matched_calls,
{
}

/// The numbers that a hook gives out follow one after another, and giving one out
/// changes nothing else that the hook holds.
pub proof fn numbers_are_given_out_in_turn(
    recording: (RecordingHook, RecordingHook, RecordingHook),
    replay: (ReplayHook, ReplayHook, ReplayHook),
    lookup: (LookupTableHook, LookupTableHook, LookupTableHook),
    m: u64,
    n: u64,
    c: Option<Seq<char>>,
    key: CallsiteKeyView,
)
    ensures
        recording.0.numbers(recording.1, m) && recording.1.numbers(recording.2, n) ==> {
            &&& m < u64::MAX ==> n == m + 1
            &&& recording.2.records == recording.0.records
            &&& recording.2.callsite_occurrence == recording.0.callsite_occurrence
            &&& recording.2.upcoming_request(c) == recording.0.upcoming_request(c)
            &&& recording.2.run_id == recording.0.run_id
        },
        replay.0.numbers(replay.1, m) && replay.1.numbers(replay.2, n) ==> {
            &&& n == m + 1
            &&& replay.2.wf()
            &&& replay.2.report() == replay.0.report()
            &&& replay.2.events() == replay.0.events()
            &&& replay.2.config() == replay.0.config()
            &&& replay.2.position(c) == replay.0.position(c)
            &&& replay.2.occurrence(key) == replay.0.occurrence(key)
        },
        lookup.0.numbers(lookup.1, m) && lookup.1.numbers(lookup.2, n) ==> {
            &&& m < u64::MAX ==> n == m + 1
            &&& lookup.2.table == lookup.0.table
            &&& lookup.2.sink == lookup.0.sink
            &&& lookup.2.stamper == lookup.0.stamper
            &&& lookup.2.next_sequence == lookup.0.next_sequence
            &&& lookup.2.callsite_occurrence == lookup.0.callsite_occurrence
        },
{
}

/// The positions that a recording gives out in a correlation follow one after
/// another, and those of other correlations are left alone. A replay gives the
/// position it is at, and a lookup has none.
pub proof fn positions_are_given_out_in_turn(
    recording: (RecordingHook, RecordingHook, RecordingHook),
    replay: (ReplayHook, ReplayHook),
    lookup: (LookupTableHook, LookupTableHook),
    c: Option<Seq<char>>,
    d: Option<Seq<char>>,
    m: u64,
    n: u64,
)
    ensures
        recording.0.numbers_in(c, recording.1, m) && recording.1.numbers_in(d, recording.2, n) ==> {
            &&& c == d && m < u64::MAX ==> n == m + 1
            &&& c != d ==> n == recording.0.upcoming_request(d)
            &&& recording.2.records == recording.0.records
            &&& recording.2.global_counter == recording.0.global_counter
            &&& recording.2.callsite_occurrence == recording.0.callsite_occurrence
            &&& recording.2.run_id == recording.0.run_id
        },
        replay.0.numbers_in(c, replay.1, m) ==> m == replay.0.position(c) && replay.1 == replay.0,
        lookup.0.numbers_in(c, lookup.1, m) ==> m == 0 && lookup.1 == lookup.0,
{
    if recording.0.numbers_in(c, recording.1, m) && recording.1.numbers_in(d, recording.2, n) {
        assert(recording.1.upcoming_request(d) == (if d == c {
            next_number(recording.0.upcoming_request(d))
        } else {
            recording.0.upcoming_request(d)
        }));
    }
}

/// The occurrences of a site follow one after another, those of other sites are
/// left alone, and counting changes nothing else that the hook holds.
pub proof fn occurrences_are_given_out_in_turn(
    recording: (RecordingHook, RecordingHook, RecordingHook),
    replay: (ReplayHook, ReplayHook, ReplayHook),
    lookup: (LookupTableHook, LookupTableHook, LookupTableHook),
    key: CallsiteKeyView,
    other: CallsiteKeyView,
    m: u32,
    n: u32,
    c: Option<Seq<char>>,
)
    ensures
        recording.0.counts(key, recording.1, m) && recording.1.counts(other, recording.2, n) ==> {
            &&& m == recording.0.callsite_occurrence.upcoming(key, 0)
            &&& key == other ==> n == m + 1
            &&& key != other ==> n == recording.0.callsite_occurrence.upcoming(other, 0)
            &&& recording.2.records == recording.0.records
            &&& recording.2.global_counter == recording.0.global_counter
            &&& recording.2.upcoming_request(c) == recording.0.upcoming_request(c)
            &&& recording.2.run_id == recording.0.run_id
        },
        replay.0.counts(key, replay.1, m) && replay.1.counts(other, replay.2, n) ==> {
            &&& m == replay.0.occurrence(key)
            &&& key == other ==> n == m + 1
            &&& key != other ==> n == replay.0.occurrence(other)
            &&& replay.2.wf()
            &&& replay.2.upcoming_sequence() == replay.0.upcoming_sequence()
            &&& replay.2.report() == replay.0.report()
            &&& replay.2.events() == replay.0.events()
            &&& replay.2.config() == replay.0.config()
            &&& replay.2.position(c) == replay.0.position(c)
        },
        DejaHook::counts(&lookup.0, key, lookup.1, m) && DejaHook::counts(
            &lookup.1,
            other,
            lookup.2,
            n,
        ) ==> {
            &&& m == lookup.0.callsite_occurrence.upcoming(key, 0)
            &&& key == other ==> n == m + 1
            &&& key != other ==> n == lookup.0.callsite_occurrence.upcoming(other, 0)
            &&& lookup.2.table == lookup.0.table
            &&& lookup.2.sink == lookup.0.sink
            &&& lookup.2.stamper == lookup.0.stamper
            &&& lookup.2.next_sequence == lookup.0.next_sequence
            &&& lookup.2.global_counter == lookup.0.global_counter
        },
{
}

/// A recording keeps the events it is given, each behind those before it; a replay
/// counts them; and a lookup observes the ends of requests and nothing else.
pub proof fn events_are_kept_counted_or_observed(
    recording: (RecordingHook, RecordingHook),
    replay: (ReplayHook, ReplayHook),
    lookup: (LookupTableHook, LookupTableHook),
    event: BoundaryEvent,
    c: Option<Seq<char>>,
    key: CallsiteKeyView,
)
    ensures
        recording.0.records(event, recording.1) ==> {
            &&& recording.1.records@.len() == recording.0.records@.len() + 1
            &&& recording.1.records@.last() == DejaRecord::BoundaryEvent(Box::new(event))
            &&& recording.1.records@.drop_last() == recording.0.records@
            &&& recording.1.global_counter == recording.0.global_counter
            &&& recording.1.callsite_occurrence == recording.0.callsite_occurrence
            &&& recording.1.upcoming_request(c) == recording.0.upcoming_request(c)
            &&& recording.1.run_id == recording.0.run_id
        },
        replay.0.records(event, replay.1) ==> {
            &&& replay.1.wf()
            &&& replay.0.report().total_calls < u64::MAX ==> replay.1.report().total_calls
                == replay.0.report().total_calls + 1
            &&& replay.1.report().divergences == replay.0.report().divergences
            &&& replay.1.report().divergence_count == replay.0.report().divergence_count
            &&& replay.1.upcoming_sequence() == replay.0.upcoming_sequence()
            &&& replay.1.events() == replay.0.events()
            &&& replay.1.config() == replay.0.config()
            &&& replay.1.position(c) == replay.0.position(c)
            &&& replay.1.occurrence(key) == replay.0.occurrence(key)
        },
        lookup.0.records(event, lookup.1) ==> {
            &&& event.boundary@ != "http_incoming"@ ==> lookup.1 == lookup.0
            &&& event.boundary@ == "http_incoming"@ ==> lookup.1.sink.calls@.len()
                == lookup.0.sink.calls@.len() + 1 && lookup.1.sink.calls@.drop_last()
                == lookup.0.sink.calls@ && lookup.1.sink.calls@.last()@.args == event.args@
            &&& lookup.1.sink.nodes == lookup.0.sink.nodes
            &&& lookup.1.table == lookup.0.table
            &&& lookup.1.stamper == lookup.0.stamper
            &&& lookup.1.next_sequence == lookup.0.next_sequence
            &&& lookup.1.global_counter == lookup.0.global_counter
            &&& lookup.1.callsite_occurrence == lookup.0.callsite_occurrence
        },
{
}

/// A call that is shadowed is observed once, when it has run: with what it gave,
/// and otherwise as it was found when it was asked for.
pub proof fn shadowed_calls_are_observed_once(
    before: LookupTableHook,
    query: ReplayLookup<'_>,
    ambient: Ambient,
    mid: LookupTableHook,
    token: ExecuteShadowToken,
    result: Json,
    after: LookupTableHook,
)
    requires
        before.peeks(query, ambient, mid, Some(token)),
        mid.observes(token, result, after),
    ensures
        mid.sink == before.sink,
        mid.table == before.table,
        after.sink.calls@.len() == before.sink.calls@.len() + 1,
        after.sink.calls@.drop_last() == before.sink.calls@,
        after.sink.nodes == before.sink.nodes,
        ({
            let o = after.sink.calls@.last()@;
            &&& o.observed_result == Some(result@)
            &&& o.provenance is Shadow
            &&& o.boundary == query.boundary@
            &&& o.trait_name == query.trait_name@
            &&& o.method_name == query.method_name@
            &&& o.args == query.args@
            &&& o.recorded_result == hit_result(before.hit(query, ambient))
        }),
        after.table == mid.table,
        after.stamper == mid.stamper,
        after.next_sequence == mid.next_sequence,
        after.global_counter == before.global_counter,
        after.callsite_occurrence == before.callsite_occurrence,
{
}

/// A call that is looked up is given what was recorded under its address, and is
/// observed with it; a call that was not recorded is observed without a result.
pub proof fn lookups_are_observed_as_answered(
    before: LookupTableHook,
    query: ReplayLookup<'_>,
    ambient: Ambient,
    after: LookupTableHook,
    result: Option<Json>,
)
    requires
        before.looks_up(query, ambient, after, result),
    ensures
        result is Some <==> before.hit(query, ambient) is Some,
        before.hit(query, ambient) matches Some((entry, _)) ==> result is Some && result->0@
            == entry.result@,
        after.sink.calls@.len() == before.sink.calls@.len() + 1,
        after.sink.calls@.drop_last() == before.sink.calls@,
        after.sink.nodes == before.sink.nodes,
        after.table == before.table,
        ({
            let o = after.sink.calls@.last()@;
            &&& o.observed_result == result.deep_view()
            &&& o.recorded_result == result.deep_view()
            &&& o.provenance is Recorded
            &&& o.boundary == query.boundary@
            &&& o.trait_name == query.trait_name@
            &&& o.method_name == query.method_name@
            &&& o.args == query.args@
        }),
{
}

} // verus!
