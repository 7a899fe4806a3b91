//! Crossing a boundary: running it, recording it, or replaying it.

use vstd::prelude::*;
use crate::ambient::{Ambient, ReplayLookup};
use crate::args_hash::digest_of;
use crate::builder::{
    finished_events_say_the_call, keys_are_added_once_each, stated, BoundarySpec, CallLocation,
    EventBuilder, FinishContext, RecordedOutput, Sequences, StartContext, StateCapture,
};
use crate::crossing::{execute_mode, replay_strategy_to_execute_mode, FailStop};
use crate::event::{BoundaryEvent, CallsiteIdentity, ExecuteMode, ReplayStrategy, RuntimeMode};
use crate::hook::DejaHook;
use crate::json::Json;
use crate::observed::ExecuteShadowToken;
use crate::recording::{now_ns, read_off_the_clock};
use crate::text::{opt_clone, opt_str, opt_string, texts};

verus! {

/// A recorded result, read as what the call gives.
#[derive(Debug, Clone, PartialEq, Eq)]
pub enum Reconstructed<T> {
    Value(T),
    /// It cannot be read.
    Failed,
}

/// The correlation an event carries: its own, or the one around the call.
pub open spec fn event_correlation(own: Option<String>, ambient: Ambient) -> Option<Seq<char>> {
    if own is Some {
        own.deep_view()
    } else {
        ambient.correlation_id.deep_view()
    }
}

/// What an event is started with.
pub struct EventStart {
    pub spec: BoundarySpec,
    pub caller: CallLocation,
    pub receiver: Option<Json>,
    /// The event's own correlation, where it has one.
    pub correlation_id: Option<String>,
    pub args: Json,
    pub identity: Option<CallsiteIdentity>,
    pub state_capture: Option<StateCapture>,
}

/// Whether a builder holds the call as it was started.
pub open spec fn started(
    b: EventBuilder,
    start: EventStart,
    numbers: Sequences,
    ambient: Ambient,
) -> bool {
    &&& b.global_sequence == numbers.global
    &&& b.request_sequence == numbers.request
    &&& b.correlation_id.deep_view() == event_correlation(start.correlation_id, ambient)
    &&& b.start_ns == ambient.now_ns
    &&& b.boundary == start.spec.boundary
    &&& b.trait_name == start.spec.trait_name
    &&& b.method_name == start.spec.method_name
    &&& b.call_file == start.caller.file
    &&& b.call_line == start.caller.line
    &&& b.call_column == start.caller.column
    &&& b.graph_node_id == ambient.graph_node_id
    &&& b.tracing_span_id == ambient.tracing_span_id
    &&& b.receiver == start.receiver
    &&& b.args == start.args
    &&& b.explicit_args is None
    &&& b.explicit_output is None
    &&& b.callsite_identity == start.identity
    &&& b.semantics == start.spec.declared()
    &&& match start.state_capture {
        Some(capture) => {
            &&& b.explicit_read_set == Some(capture.read_set)
            &&& b.explicit_write_set == Some(capture.write_set)
            &&& b.explicit_result_image == capture.result_image
            &&& b.explicit_pre_image == capture.pre_image
        },
        None => {
            &&& b.explicit_read_set is None
            &&& b.explicit_write_set is None
            &&& b.explicit_result_image is None
            &&& b.explicit_pre_image is None
        },
    }
}

/// Whether starting an event leaves a hook like this and gives this.
pub open spec fn starts<H: DejaHook>(
    before: H,
    start: EventStart,
    ambient: Ambient,
    after: H,
    builder: EventBuilder,
) -> bool {
    exists|mid: H, numbers: Sequences| #[trigger]
        before.numbers(mid, numbers.global) && mid.numbers_in(
            event_correlation(start.correlation_id, ambient),
            after,
            numbers.request,
        ) && #[trigger] started(builder, start, numbers, ambient)
}

/// Whether a hook has the numbers for an event.
pub open spec fn can_start<H: DejaHook>(
    hook: H,
    correlation_id: Option<String>,
    ambient: Ambient,
) -> bool {
    hook.can_number() && hook.can_number_in(event_correlation(correlation_id, ambient))
}

/// Starts an event: gives it its numbers and holds the call as it is made.
pub fn start_event<H: DejaHook>(hook: &mut H, start: EventStart, ambient: &Ambient) -> (r:
    EventBuilder)
    requires
        can_start(*old(hook), start.correlation_id, *ambient),
    ensures
        starts(*old(hook), start, *ambient, *final(hook), r),
        old(hook).can_record() ==> final(hook).can_record(),
{
    let ghost whole = start;
    let EventStart { spec, caller, receiver, correlation_id, args, identity, state_capture } =
        start;
    let context = StartContext {
        correlation_id: opt_clone(&ambient.correlation_id),
        graph_node_id: ambient.graph_node_id,
        tracing_span_id: ambient.tracing_span_id,
        start_ns: ambient.now_ns,
    };
    let global: u64 = hook.next_global_sequence();
    let ghost mid = *hook;
    let request: u64 = match &correlation_id {
        Some(id) => hook.next_request_sequence(Some(id.as_str())),
        None => hook.next_request_sequence(opt_str(&ambient.correlation_id)),
    };
    let numbers = Sequences { global, request };
    let semantics = spec.semantics();
    let mut builder = EventBuilder::start_with_receiver_and_correlation_id(
        numbers,
        context,
        spec.boundary,
        spec.trait_name,
        spec.method_name,
        caller,
        receiver,
        correlation_id,
        args,
    ).with_semantics(semantics);
    if let Some(identity) = identity {
        builder = builder.with_callsite_identity(identity);
    }
    if let Some(capture) = state_capture {
        builder = capture.apply_to(builder);
    }
    proof {
        assert(started(builder, whole, numbers, *ambient));
        assert(old(hook).numbers(mid, numbers.global));
    }
    builder
}

/// Whether a call is finished around this, by a hook that records this run.
pub open spec fn finishes_in(
    context: FinishContext,
    ambient: Ambient,
    run_id: Option<Seq<char>>,
    end_ns: u64,
) -> bool {
    &&& context.end_ns == end_ns
    &&& context.hook_run_id.deep_view() == run_id
    &&& context.process_run_id.deep_view() == ambient.process_run_id.deep_view()
    &&& context.lineage@ == ambient.task()
}

/// Whether an event is the one a builder finishes as, with what the call gave.
pub open spec fn finished(
    builder: EventBuilder,
    ambient: Ambient,
    run_id: Option<Seq<char>>,
    end_ns: u64,
    output: RecordedOutput,
    event: BoundaryEvent,
) -> bool {
    exists|context: FinishContext, whole: EventBuilder|
        finishes_in(context, ambient, run_id, end_ns) && builder.takes(output, whole)
            && #[trigger] whole.finishes(context, output.result, output.is_error, event)
}

/// Finishes an event with what the call gave, and records it.
pub fn finish_event<H: DejaHook>(
    hook: &mut H,
    builder: EventBuilder,
    output: RecordedOutput,
    ambient: &Ambient,
    end_ns: u64,
)
    requires
        old(hook).can_record(),
    ensures
        exists|event: BoundaryEvent| #[trigger]
            old(hook).records(event, *final(hook)) && finished(
                builder,
                *ambient,
                old(hook).run(),
                end_ns,
                output,
                event,
            ),
{
    let context = FinishContext {
        end_ns,
        hook_run_id: opt_string(hook.recording_run_id()),
        process_run_id: opt_clone(&ambient.process_run_id),
        lineage: ambient.task_lineage(),
    };
    let event = builder.finish_recorded(context, output);
    proof {
        let whole = choose|b: EventBuilder| #[trigger]
            builder.takes(output, b) && b.finishes(context, output.result, output.is_error, event);
        assert(whole.finishes(context, output.result, output.is_error, event));
        assert(finished(builder, *ambient, old(hook).run(), end_ns, output, event));
    }
    hook.record(event);
}

/// Starts an event where the hook records. The arguments are only evaluated
/// where it does.
pub fn start_boundary_event_lazy_with_hook<H: DejaHook, A: FnOnce() -> Json>(
    hook: &mut H,
    caller: CallLocation,
    spec: BoundarySpec,
    correlation_id: Option<String>,
    args: A,
    identity: Option<CallsiteIdentity>,
    state_capture: Option<StateCapture>,
    ambient: &Ambient,
) -> (r: Option<EventBuilder>)
    requires
        old(hook).mode_in(*ambient) is Record ==> args.requires(()) && can_start(
            *old(hook),
            correlation_id,
            *ambient,
        ),
    ensures
        r is Some <==> old(hook).mode_in(*ambient) is Record,
        r is None ==> *final(hook) == *old(hook),
        r matches Some(builder) ==> exists|value: Json| #[trigger]
            args.ensures((), value) && starts(
                *old(hook),
                (EventStart {
                    spec,
                    caller,
                    receiver: None,
                    correlation_id,
                    args: value,
                    identity,
                    state_capture,
                }),
                *ambient,
                *final(hook),
                builder,
            ),
        old(hook).can_record() ==> final(hook).can_record(),
{
    if !hook.mode(ambient).is_record() {
        return None;
    }
    let value = args();
    let builder = start_event(
        hook,
        EventStart {
            spec,
            caller,
            receiver: None,
            correlation_id,
            args: value,
            identity,
            state_capture,
        },
        ambient,
    );
    Some(builder)
}

/// Finishes an event that was started, with what the call gave.
pub fn finish_boundary_event<H: DejaHook, T, R: FnOnce(&T) -> RecordedOutput>(
    hook: &mut H,
    event: Option<EventBuilder>,
    output: &T,
    result: R,
    ambient: &Ambient,
)
    requires
        event is Some ==> old(hook).can_record() && result.requires((output,)),
    ensures
        event is None ==> *final(hook) == *old(hook),
        event matches Some(builder) ==> recorded(
            *old(hook),
            builder,
            *ambient,
            *output,
            result,
            *final(hook),
        ),
{
    if let Some(builder) = event {
        let taken = result(output);
        let end_ns: u64 = now_ns();
        finish_event(hook, builder, taken, ambient, end_ns);
        proof {
            let e = choose|e: BoundaryEvent| #[trigger]
                old(hook).records(e, *hook) && finished(
                    builder,
                    *ambient,
                    old(hook).run(),
                    end_ns,
                    taken,
                    e,
                );
            assert(finished(builder, *ambient, old(hook).run(), end_ns, taken, e));
        }
    }
}

/// Whether recording what a call gave leaves a hook like this. The call ended
/// when the clock says it did.
pub open spec fn recorded<H: DejaHook, T, R: FnOnce(&T) -> RecordedOutput>(
    before: H,
    builder: EventBuilder,
    ambient: Ambient,
    out: T,
    extract: R,
    after: H,
) -> bool {
    exists|output: RecordedOutput, event: BoundaryEvent, end_ns: u64|
        read_off_the_clock(end_ns) && extract.ensures((&out,), output) && before.records(
            event,
            after,
        ) && #[trigger] finished(
            builder,
            ambient,
            before.run(),
            end_ns,
            output,
            event,
        )
}

/// The lookup of a call.
pub open spec fn lookup_of<'a>(
    spec: &'a BoundarySpec,
    identity: Option<&'a CallsiteIdentity>,
    caller: CallLocation,
    args: &'a Json,
) -> ReplayLookup<'a> {
    ReplayLookup {
        boundary: spec.boundary,
        trait_name: spec.trait_name,
        method_name: spec.method_name,
        args,
        callsite_identity: identity,
        caller_location: Some(caller),
    }
}

fn lookup_for<'a>(
    spec: &'a BoundarySpec,
    identity: Option<&'a CallsiteIdentity>,
    caller: CallLocation,
    args: &'a Json,
) -> (r: ReplayLookup<'a>)
    ensures
        r == lookup_of(spec, identity, caller, args),
{
    ReplayLookup {
        boundary: spec.boundary,
        trait_name: spec.trait_name,
        method_name: spec.method_name,
        args,
        callsite_identity: identity,
        caller_location: Some(caller),
    }
}

/// What replay does at a boundary, under a hook. A hook that does not replay
/// has nothing to run a call against.
pub fn boundary_execute_mode_for<H: DejaHook>(hook: &H, spec: &BoundarySpec, ambient: &Ambient) -> (r:
    ExecuteMode)
    ensures
        r == (if hook.mode_in(*ambient) is Replay {
            execute_mode(spec.replay_strategy)
        } else {
            ExecuteMode::Lookup
        }),
{
    if !hook.mode(ambient).is_replay() {
        return ExecuteMode::Lookup;
    }
    replay_strategy_to_execute_mode(spec.replay_strategy)
}

/// Looks a call up for its recorded result. A hook that is not active has none.
pub fn replay_boundary<H: DejaHook>(
    hook: &mut H,
    caller: CallLocation,
    spec: &BoundarySpec,
    args: &Json,
    identity: Option<&CallsiteIdentity>,
    ambient: &Ambient,
) -> (r: Option<Json>)
    requires
        !(old(hook).mode_in(*ambient) is Disabled) ==> old(hook).can_look_up(
            lookup_of(spec, identity, caller, args),
            *ambient,
        ),
    ensures
        old(hook).mode_in(*ambient) is Disabled ==> r is None && *final(hook) == *old(hook),
        !(old(hook).mode_in(*ambient) is Disabled) ==> old(hook).looks_up(
            lookup_of(spec, identity, caller, args),
            *ambient,
            *final(hook),
            r,
        ),
{
    if !hook.is_active(ambient) {
        return None;
    }
    hook.try_replay_with_context(lookup_for(spec, identity, caller, args), ambient)
}

/// Looks a call up that is about to be made live. A hook that is not active
/// cannot observe it.
pub fn execute_shadow_peek_boundary<H: DejaHook>(
    hook: &mut H,
    caller: CallLocation,
    spec: &BoundarySpec,
    args: &Json,
    identity: Option<&CallsiteIdentity>,
    ambient: &Ambient,
) -> (r: Option<ExecuteShadowToken>)
    requires
        !(old(hook).mode_in(*ambient) is Disabled) ==> old(hook).can_look_up(
            lookup_of(spec, identity, caller, args),
            *ambient,
        ),
    ensures
        old(hook).mode_in(*ambient) is Disabled ==> r is None && *final(hook) == *old(hook),
        !(old(hook).mode_in(*ambient) is Disabled) ==> old(hook).peeks(
            lookup_of(spec, identity, caller, args),
            *ambient,
            *final(hook),
            r,
        ),
{
    if !hook.is_active(ambient) {
        return None;
    }
    hook.execute_shadow_peek(lookup_for(spec, identity, caller, args), ambient)
}

/// Observes a call that was made live.
pub fn execute_shadow_observe_boundary<H: DejaHook>(
    hook: &mut H,
    token: ExecuteShadowToken,
    observed_result: Json,
)
    ensures
        old(hook).observes(token, observed_result, *final(hook)),
{
    hook.execute_shadow_observe(token, observed_result);
}

/// Whether a call that is executed under replay leaves the hook like this and
/// gives this: it runs once there is a token, and what it gave is observed
/// before it is returned.
pub open spec fn shadowed<H: DejaHook, T, F: FnOnce() -> T, R: FnOnce(&T) -> RecordedOutput>(
    before: H,
    query: ReplayLookup<'_>,
    ambient: Ambient,
    run: F,
    extract: R,
    after: H,
    r: Result<T, FailStop>,
) -> bool {
    match r {
        Err(why) => why is ExecuteShadowUnavailable && before.peeks(query, ambient, after, None),
        Ok(out) => run.ensures((), out) && exists|
            mid: H,
            token: ExecuteShadowToken,
            output: RecordedOutput,
        |
            before.peeks(query, ambient, mid, Some(token)) && extract.ensures((&out,), output)
                && #[trigger] mid.observes(token, output.result, after),
    }
}

/// Whether a call that is substituted under replay leaves the hook like this
/// and gives this: what was recorded, read as what the call gives.
pub open spec fn substituted<H: DejaHook, T, C: FnOnce(Json) -> Reconstructed<T>>(
    before: H,
    query: ReplayLookup<'_>,
    ambient: Ambient,
    reconstruct: C,
    after: H,
    r: Result<T, FailStop>,
) -> bool {
    ||| r == Err::<T, FailStop>(FailStop::SubstituteMiss) && before.looks_up(
        query,
        ambient,
        after,
        None,
    )
    ||| exists|recorded: Json| #[trigger]
        before.looks_up(query, ambient, after, Some(recorded)) && (match r {
            Ok(value) => reconstruct.ensures((recorded,), Reconstructed::Value(value)),
            Err(why) => why is SubstituteUnreconstructable && reconstruct.ensures(
                (recorded,),
                Reconstructed::Failed,
            ),
        })
}

/// Whether a crossing leaves the hook like this and gives this, under replay.
pub open spec fn replayed<
    H: DejaHook,
    T,
    F: FnOnce() -> T,
    C: FnOnce(Json) -> Reconstructed<T>,
    R: FnOnce(&T) -> RecordedOutput,
>(
    before: H,
    strategy: ReplayStrategy,
    query: ReplayLookup<'_>,
    ambient: Ambient,
    run: F,
    reconstruct: C,
    extract: R,
    after: H,
    r: Result<T, FailStop>,
) -> bool {
    match strategy {
        ReplayStrategy::Execute => shadowed(before, query, ambient, run, extract, after, r),
        ReplayStrategy::Substitute => substituted(before, query, ambient, reconstruct, after, r),
    }
}

/// Crosses a boundary under replay. The call can only run where the boundary
/// declares that it is executed.
fn replay_crossing<
    H: DejaHook,
    T,
    F: FnOnce() -> T,
    C: FnOnce(Json) -> Reconstructed<T>,
    R: FnOnce(&T) -> RecordedOutput,
>(
    hook: &mut H,
    spec: &BoundarySpec,
    identity: &CallsiteIdentity,
    caller: CallLocation,
    args: &Json,
    ambient: &Ambient,
    run: F,
    reconstruct: C,
    extract: R,
) -> (r: Result<T, FailStop>)
    requires
        old(hook).can_look_up(lookup_of(spec, Some(identity), caller, args), *ambient),
        spec.replay_strategy is Execute ==> run.requires(()) && forall|out: T| #[trigger]
            extract.requires((&out,)),
        spec.replay_strategy is Substitute ==> forall|v: Json| #[trigger]
            reconstruct.requires((v,)),
    ensures
        replayed(
            *old(hook),
            spec.replay_strategy,
            lookup_of(spec, Some(identity), caller, args),
            *ambient,
            run,
            reconstruct,
            extract,
            *final(hook),
            r,
        ),
{
    let query = lookup_for(spec, Some(identity), caller, args);
    match replay_strategy_to_execute_mode(spec.replay_strategy) {
        ExecuteMode::Execute => match hook.execute_shadow_peek(query, ambient) {
            Some(token) => {
                let ghost mid = *hook;
                let out = run();
                let output = extract(&out);
                let ghost seen = output;
                hook.execute_shadow_observe(token, output.result);
                proof {
                    assert(mid.observes(token, seen.result, *hook));
                }
                Ok(out)
            },
            None => Err(FailStop::ExecuteShadowUnavailable),
        },
        ExecuteMode::Lookup => match hook.try_replay_with_context(query, ambient) {
            Some(recorded) => match reconstruct(recorded) {
                Reconstructed::Value(replayed) => Ok(replayed),
                Reconstructed::Failed => Err(FailStop::SubstituteUnreconstructable),
            },
            None => Err(FailStop::SubstituteMiss),
        },
    }
}

/// What a crossing is matched by, and what is recorded of it.
pub struct CrossingObservation {
    pub spec: BoundarySpec,
    pub identity: CallsiteIdentity,
    pub caller: CallLocation,
    /// The event's own correlation; none takes the one around the call.
    pub correlation_id: Option<String>,
    pub state_capture: Option<StateCapture>,
}

impl CrossingObservation {
    /// A crossing in the correlation around it.
    pub fn new(spec: BoundarySpec, identity: CallsiteIdentity, caller: CallLocation) -> (r:
        CrossingObservation)
        ensures
            r == (CrossingObservation {
                spec,
                identity,
                caller,
                correlation_id: None,
                state_capture: None,
            }),
    {
        CrossingObservation { spec, identity, caller, correlation_id: None, state_capture: None }
    }

    /// A crossing with a correlation of its own.
    pub fn with_correlation(
        spec: BoundarySpec,
        identity: CallsiteIdentity,
        caller: CallLocation,
        correlation_id: Option<String>,
    ) -> (r: CrossingObservation)
        ensures
            r == (CrossingObservation {
                spec,
                identity,
                caller,
                correlation_id,
                state_capture: None,
            }),
    {
        CrossingObservation { spec, identity, caller, correlation_id, state_capture: None }
    }

    /// Changes nothing: a recorded result that cannot be read always stops the
    /// request.
    pub fn fall_through_silent(self) -> (r: CrossingObservation)
        ensures
            r == self,
    {
        self
    }

    /// What was stated so far, or nothing.
    fn capture_or_empty(capture: Option<StateCapture>) -> (r: StateCapture)
        ensures
            capture matches Some(c) ==> r == c,
            capture is None ==> r.states_nothing(),
    {
        match capture {
            Some(capture) => capture,
            None => StateCapture::empty(),
        }
    }

    /// Whether the capture is what was stated before, or states nothing where
    /// nothing was.
    pub open spec fn captured(self, capture: StateCapture) -> bool {
        match self.state_capture {
            Some(c) => capture == c,
            None => capture.states_nothing(),
        }
    }

    pub fn with_read_set(self, keys: Vec<String>) -> (r: CrossingObservation)
        ensures
            exists|c: StateCapture| #[trigger]
                self.captured(c) && r == (CrossingObservation {
                    state_capture: Some(StateCapture { read_set: keys, ..c }),
                    ..self
                }),
    {
        let capture = Self::capture_or_empty(self.state_capture);
        let ghost c = capture;
        proof {
            assert(self.captured(c));
        }
        CrossingObservation { state_capture: Some(capture.with_read_set(keys)), ..self }
    }

    pub fn with_write_set(self, keys: Vec<String>) -> (r: CrossingObservation)
        ensures
            exists|c: StateCapture| #[trigger]
                self.captured(c) && r == (CrossingObservation {
                    state_capture: Some(StateCapture { write_set: keys, ..c }),
                    ..self
                }),
    {
        let capture = Self::capture_or_empty(self.state_capture);
        let ghost c = capture;
        proof {
            assert(self.captured(c));
        }
        CrossingObservation { state_capture: Some(capture.with_write_set(keys)), ..self }
    }

    pub fn with_result_image(self, image: Json) -> (r: CrossingObservation)
        ensures
            exists|c: StateCapture| #[trigger]
                self.captured(c) && r == (CrossingObservation {
                    state_capture: Some(StateCapture { result_image: Some(image), ..c }),
                    ..self
                }),
    {
        let capture = Self::capture_or_empty(self.state_capture);
        let ghost c = capture;
        proof {
            assert(self.captured(c));
        }
        CrossingObservation { state_capture: Some(capture.with_result_image(image)), ..self }
    }

    pub fn with_pre_image(self, image: Json) -> (r: CrossingObservation)
        ensures
            exists|c: StateCapture| #[trigger]
                self.captured(c) && r == (CrossingObservation {
                    state_capture: Some(StateCapture { pre_image: Some(image), ..c }),
                    ..self
                }),
    {
        let capture = Self::capture_or_empty(self.state_capture);
        let ghost c = capture;
        proof {
            assert(self.captured(c));
        }
        CrossingObservation { state_capture: Some(capture.with_pre_image(image)), ..self }
    }

    /// States that the call reads one key and writes none.
    pub fn state_read_to(self, key: &str) -> (r: CrossingObservation)
        ensures
            touches(self, r, seq![key@], Seq::empty()),
    {
        let capture = Self::capture_or_empty(self.state_capture);
        let ghost c = capture;
        proof {
            assert(self.captured(c));
        }
        let capture = capture.state_read_to(key);
        proof {
            assert(texts(capture.write_set@) =~= Seq::<Seq<char>>::empty());
        }
        CrossingObservation { state_capture: Some(capture), ..self }
    }

    /// States that the call writes one key and reads none.
    pub fn state_write_to(self, key: &str) -> (r: CrossingObservation)
        ensures
            touches(self, r, Seq::empty(), seq![key@]),
    {
        let capture = Self::capture_or_empty(self.state_capture);
        let ghost c = capture;
        proof {
            assert(self.captured(c));
        }
        let capture = capture.state_write_to(key);
        proof {
            assert(texts(capture.read_set@) =~= Seq::<Seq<char>>::empty());
        }
        CrossingObservation { state_capture: Some(capture), ..self }
    }

    /// States that the call reads and writes one key.
    pub fn state_touch_to(self, key: &str) -> (r: CrossingObservation)
        ensures
            touches(self, r, seq![key@], seq![key@]),
    {
        let capture = Self::capture_or_empty(self.state_capture);
        let ghost c = capture;
        proof {
            assert(self.captured(c));
        }
        CrossingObservation { state_capture: Some(capture.state_touch_to(key)), ..self }
    }
}

/// Whether a crossing is another one with these keys stated.
pub open spec fn touches(
    before: CrossingObservation,
    after: CrossingObservation,
    reads: Seq<Seq<char>>,
    writes: Seq<Seq<char>>,
) -> bool {
    &&& after == (CrossingObservation { state_capture: after.state_capture, ..before })
    &&& after.state_capture matches Some(capture) && texts(capture.read_set@) == reads && texts(
        capture.write_set@,
    ) == writes && exists|c: StateCapture| #[trigger]
        before.captured(c) && capture.result_image == c.result_image && capture.pre_image
            == c.pre_image
}

/// Whether running a call and recording what it gave leaves the hook like this.
/// The event is finished by what surrounds the call once it is made.
pub open spec fn ran_recorded<
    H: DejaHook,
    T,
    F: FnOnce() -> T,
    L: FnOnce() -> Ambient,
    R: FnOnce(&T) -> RecordedOutput,
>(
    before: H,
    start: EventStart,
    ambient: Ambient,
    run: F,
    leave: L,
    extract: R,
    after: H,
    out: T,
) -> bool {
    &&& run.ensures((), out)
    &&& exists|mid: H, builder: EventBuilder, left: Ambient| #[trigger]
        starts(before, start, ambient, mid, builder) && #[trigger] leave.ensures((), left)
            && recorded(mid, builder, left, out, extract, after)
}

/// Runs a call and records what it gave.
fn record_crossing<
    H: DejaHook,
    T,
    F: FnOnce() -> T,
    L: FnOnce() -> Ambient,
    R: FnOnce(&T) -> RecordedOutput,
>(
    hook: &mut H,
    start: EventStart,
    ambient: &Ambient,
    run: F,
    leave: L,
    extract: R,
) -> (r: T)
    requires
        can_start(*old(hook), start.correlation_id, *ambient),
        old(hook).can_record(),
        run.requires(()),
        leave.requires(()),
        forall|out: T| #[trigger] extract.requires((&out,)),
    ensures
        ran_recorded(*old(hook), start, *ambient, run, leave, extract, *final(hook), r),
{
    let builder = start_event(hook, start, ambient);
    let ghost mid = *hook;
    let ghost begun = builder;
    let out = run();
    let left = leave();
    finish_boundary_event(hook, Some(builder), &out, extract, &left);
    proof {
        assert(starts(*old(hook), start, *ambient, mid, begun));
        assert(leave.ensures((), left));
    }
    out
}

/// Crosses a boundary.
///
/// Where nothing is recorded or replayed the call runs, and neither its
/// arguments nor its result are looked at. Where it is recorded it runs, and
/// the event goes to the hook. Under replay it runs only where the boundary
/// declares that it is executed, between being looked up and being observed;
/// where it is substituted the recorded result is given in its place.
/// `leave` says what surrounds the call once it is made.
pub fn dispatch<
    H: DejaHook,
    T,
    A: FnOnce() -> Json,
    F: FnOnce() -> T,
    L: FnOnce() -> Ambient,
    C: FnOnce(Json) -> Reconstructed<T>,
    R: FnOnce(&T) -> RecordedOutput,
>(
    hook: &mut H,
    obs: CrossingObservation,
    ambient: &Ambient,
    args: A,
    run: F,
    leave: L,
    reconstruct: C,
    extract: R,
) -> (r: Result<T, FailStop>)
    requires
        match old(hook).mode_in(*ambient) {
            RuntimeMode::Disabled => run.requires(()),
            RuntimeMode::Record => {
                &&& args.requires(())
                &&& run.requires(())
                &&& leave.requires(())
                &&& forall|out: T| #[trigger] extract.requires((&out,))
                &&& can_start(*old(hook), obs.correlation_id, *ambient)
                &&& old(hook).can_record()
            },
            RuntimeMode::Replay => {
                &&& args.requires(())
                &&& forall|value: Json| #[trigger]
                    args.ensures((), value) ==> old(hook).can_look_up(
                        lookup_of(&obs.spec, Some(&obs.identity), obs.caller, &value),
                        *ambient,
                    )
                &&& obs.spec.replay_strategy is Execute ==> run.requires(()) && forall|out: T|
                 #[trigger]
                    extract.requires((&out,))
                &&& obs.spec.replay_strategy is Substitute ==> forall|v: Json| #[trigger]
                    reconstruct.requires((v,))
            },
        },
    ensures
        match old(hook).mode_in(*ambient) {
            RuntimeMode::Disabled => *final(hook) == *old(hook) && (r matches Ok(out)
                && run.ensures((), out)),
            RuntimeMode::Record => r matches Ok(out) && exists|value: Json| #[trigger]
                args.ensures((), value) && ran_recorded(
                    *old(hook),
                    (EventStart {
                        spec: obs.spec,
                        caller: obs.caller,
                        receiver: None,
                        correlation_id: obs.correlation_id,
                        args: value,
                        identity: Some(obs.identity),
                        state_capture: obs.state_capture,
                    }),
                    *ambient,
                    run,
                    leave,
                    extract,
                    *final(hook),
                    out,
                ),
            RuntimeMode::Replay => exists|value: Json| #[trigger]
                args.ensures((), value) && replayed(
                    *old(hook),
                    obs.spec.replay_strategy,
                    lookup_of(&obs.spec, Some(&obs.identity), obs.caller, &value),
                    *ambient,
                    run,
                    reconstruct,
                    extract,
                    *final(hook),
                    r,
                ),
        },
{
    match hook.mode(ambient) {
        RuntimeMode::Disabled => Ok(run()),
        RuntimeMode::Record => {
            let value = args();
            let start = EventStart {
                spec: obs.spec,
                caller: obs.caller,
                receiver: None,
                correlation_id: obs.correlation_id,
                args: value,
                identity: Some(obs.identity),
                state_capture: obs.state_capture,
            };
            Ok(record_crossing(hook, start, ambient, run, leave, extract))
        },
        RuntimeMode::Replay => {
            let value = args();
            replay_crossing(
                hook,
                &obs.spec,
                &obs.identity,
                obs.caller,
                &value,
                ambient,
                run,
                reconstruct,
                extract,
            )
        },
    }
}

/// What a crossing through a hook of its own is matched by.
pub struct DelegateObservation {
    pub spec: BoundarySpec,
    pub caller: CallLocation,
    pub identity: CallsiteIdentity,
    /// What the call was made on.
    pub receiver: Option<Json>,
}

/// Crosses a boundary through a hook of its own, with arguments at hand. The
/// event carries what the call was made on.
pub fn dispatch_with_hook<
    H: DejaHook,
    T,
    F: FnOnce() -> T,
    L: FnOnce() -> Ambient,
    C: FnOnce(Json) -> Reconstructed<T>,
    R: FnOnce(&T) -> RecordedOutput,
>(
    hook: &mut H,
    obs: DelegateObservation,
    ambient: &Ambient,
    args: Json,
    run: F,
    leave: L,
    reconstruct: C,
    extract: R,
) -> (r: Result<T, FailStop>)
    requires
        match old(hook).mode_in(*ambient) {
            RuntimeMode::Disabled => run.requires(()),
            RuntimeMode::Record => {
                &&& run.requires(())
                &&& leave.requires(())
                &&& forall|out: T| #[trigger] extract.requires((&out,))
                &&& can_start(*old(hook), None, *ambient)
                &&& old(hook).can_record()
            },
            RuntimeMode::Replay => {
                &&& old(hook).can_look_up(
                    lookup_of(&obs.spec, Some(&obs.identity), obs.caller, &args),
                    *ambient,
                )
                &&& obs.spec.replay_strategy is Execute ==> run.requires(()) && forall|out: T|
                 #[trigger]
                    extract.requires((&out,))
                &&& obs.spec.replay_strategy is Substitute ==> forall|v: Json| #[trigger]
                    reconstruct.requires((v,))
            },
        },
    ensures
        match old(hook).mode_in(*ambient) {
            RuntimeMode::Disabled => *final(hook) == *old(hook) && (r matches Ok(out)
                && run.ensures((), out)),
            RuntimeMode::Record => r matches Ok(out) && ran_recorded(
                *old(hook),
                (EventStart {
                    spec: obs.spec,
                    caller: obs.caller,
                    receiver: obs.receiver,
                    correlation_id: None,
                    args,
                    identity: Some(obs.identity),
                    state_capture: None,
                }),
                *ambient,
                run,
                leave,
                extract,
                *final(hook),
                out,
            ),
            RuntimeMode::Replay => replayed(
                *old(hook),
                obs.spec.replay_strategy,
                lookup_of(&obs.spec, Some(&obs.identity), obs.caller, &args),
                *ambient,
                run,
                reconstruct,
                extract,
                *final(hook),
                r,
            ),
        },
{
    match hook.mode(ambient) {
        RuntimeMode::Disabled => Ok(run()),
        RuntimeMode::Record => {
            let start = EventStart {
                spec: obs.spec,
                caller: obs.caller,
                receiver: obs.receiver,
                correlation_id: None,
                args,
                identity: Some(obs.identity),
                state_capture: None,
            };
            Ok(record_crossing(hook, start, ambient, run, leave, extract))
        },
        RuntimeMode::Replay => replay_crossing(
            hook,
            &obs.spec,
            &obs.identity,
            obs.caller,
            &args,
            ambient,
            run,
            reconstruct,
            extract,
        ),
    }
}

/// Runs a function as a boundary, recording it where the hook records. The
/// arguments are only evaluated where it does.
pub fn record_boundary_sync_lazy<
    H: DejaHook,
    T,
    A: FnOnce() -> Json,
    F: FnOnce() -> T,
    L: FnOnce() -> Ambient,
    R: FnOnce(&T) -> RecordedOutput,
>(
    hook: &mut H,
    caller: CallLocation,
    spec: BoundarySpec,
    correlation_id: Option<String>,
    ambient: &Ambient,
    args: A,
    function: F,
    leave: L,
    result: R,
) -> (r: T)
    requires
        function.requires(()),
        old(hook).mode_in(*ambient) is Record ==> {
            &&& args.requires(())
            &&& leave.requires(())
            &&& forall|out: T| #[trigger] result.requires((&out,))
            &&& can_start(*old(hook), correlation_id, *ambient)
            &&& old(hook).can_record()
        },
    ensures
        function.ensures((), r),
        !(old(hook).mode_in(*ambient) is Record) ==> *final(hook) == *old(hook),
        old(hook).mode_in(*ambient) is Record ==> exists|value: Json| #[trigger]
            args.ensures((), value) && ran_recorded(
                *old(hook),
                (EventStart {
                    spec,
                    caller,
                    receiver: None,
                    correlation_id,
                    args: value,
                    identity: None,
                    state_capture: None,
                }),
                *ambient,
                function,
                leave,
                result,
                *final(hook),
                r,
            ),
{
    let event = start_boundary_event_lazy_with_hook(
        hook,
        caller,
        spec,
        correlation_id,
        args,
        None,
        None,
        ambient,
    );
    let ghost mid = *hook;
    let ghost begun = event;
    let output = function();
    if event.is_none() {
        return output;
    }
    let left = leave();
    finish_boundary_event(hook, event, &output, result, &left);
    proof {
        if old(hook).mode_in(*ambient) is Record {
            assert(leave.ensures((), left));
            let value = choose|value: Json| #[trigger]
                args.ensures((), value) && starts(
                    *old(hook),
                    (EventStart {
                        spec,
                        caller,
                        receiver: None,
                        correlation_id,
                        args: value,
                        identity: None,
                        state_capture: None,
                    }),
                    *ambient,
                    mid,
                    begun->0,
                );
            assert(args.ensures((), value));
            assert(starts(
                *old(hook),
                (EventStart {
                    spec,
                    caller,
                    receiver: None,
                    correlation_id,
                    args: value,
                    identity: None,
                    state_capture: None,
                }),
                *ambient,
                mid,
                begun->0,
            ));
        }
    }
    output
}

/// Runs a function as a boundary, recording it where the hook records.
pub fn record_boundary_sync<
    H: DejaHook,
    T,
    F: FnOnce() -> T,
    L: FnOnce() -> Ambient,
    R: FnOnce(&T) -> RecordedOutput,
>(
    hook: &mut H,
    caller: CallLocation,
    spec: BoundarySpec,
    correlation_id: Option<String>,
    ambient: &Ambient,
    args: Json,
    function: F,
    leave: L,
    result: R,
) -> (r: T)
    requires
        function.requires(()),
        old(hook).mode_in(*ambient) is Record ==> {
            &&& leave.requires(())
            &&& forall|out: T| #[trigger] result.requires((&out,))
            &&& can_start(*old(hook), correlation_id, *ambient)
            &&& old(hook).can_record()
        },
    ensures
        function.ensures((), r),
        !(old(hook).mode_in(*ambient) is Record) ==> *final(hook) == *old(hook),
        old(hook).mode_in(*ambient) is Record ==> ran_recorded(
            *old(hook),
            (EventStart {
                spec,
                caller,
                receiver: None,
                correlation_id,
                args,
                identity: None,
                state_capture: None,
            }),
            *ambient,
            function,
            leave,
            result,
            *final(hook),
            r,
        ),
{
    if !hook.mode(ambient).is_record() {
        return function();
    }
    record_crossing(
        hook,
        EventStart {
            spec,
            caller,
            receiver: None,
            correlation_id,
            args,
            identity: None,
            state_capture: None,
        },
        ambient,
        function,
        leave,
        result,
    )
}

/// Records a call that has been made, where the hook records.
pub fn record_semantic_event_with_hook<H: DejaHook>(
    hook: &mut H,
    spec: BoundarySpec,
    request: Json,
    response: Json,
    is_error: bool,
    caller: CallLocation,
    ambient: &Ambient,
)
    requires
        old(hook).mode_in(*ambient) is Record ==> can_start(*old(hook), None, *ambient) && old(
            hook,
        ).can_record(),
    ensures
        !(old(hook).mode_in(*ambient) is Record) ==> *final(hook) == *old(hook),
        old(hook).mode_in(*ambient) is Record ==> exists|
            mid: H,
            builder: EventBuilder,
            output: RecordedOutput,
            event: BoundaryEvent,
            end_ns: u64,
        |
            starts(
                *old(hook),
                (EventStart {
                    spec,
                    caller,
                    receiver: None,
                    correlation_id: None,
                    args: request,
                    identity: None,
                    state_capture: None,
                }),
                *ambient,
                mid,
                builder,
            ) && read_off_the_clock(end_ns) && output.result == response && output.is_error == is_error
                && output.read_set@.len() == 0 && output.write_set@.len() == 0
                && output.result_image is None && output.pre_image is None && #[trigger] mid.records(
                event,
                *final(hook),
            ) && #[trigger] finished(builder, *ambient, mid.run(), end_ns, output, event),
{
    if !hook.mode(ambient).is_record() {
        return;
    }
    let builder = start_event(
        hook,
        EventStart {
            spec,
            caller,
            receiver: None,
            correlation_id: None,
            args: request,
            identity: None,
            state_capture: None,
        },
        ambient,
    );
    let ghost mid = *hook;
    let output = RecordedOutput::new(response, is_error);
    let end_ns: u64 = now_ns();
    finish_event(hook, builder, output, ambient, end_ns);
    proof {
        let event = choose|event: BoundaryEvent| #[trigger]
            mid.records(event, *hook) && finished(
                builder,
                *ambient,
                mid.run(),
                end_ns,
                output,
                event,
            );
        assert(mid.records(event, *hook));
        assert(finished(builder, *ambient, mid.run(), end_ns, output, event));
    }
}

/// The event of a call that was started and finished says the call by what it was
/// started with and by what it gave: its boundary, site and arguments, its own
/// correlation or else the one around it, the numbers it was given, when it started
/// and when it ended, the lineage it ended in, its result, and the keys and images
/// that were stated before it ran or that came with its result.
pub proof fn recorded_events_say_the_call(
    builder: EventBuilder,
    start: EventStart,
    numbers: Sequences,
    ambient: Ambient,
    left: Ambient,
    run_id: Option<Seq<char>>,
    end_ns: u64,
    output: RecordedOutput,
    event: BoundaryEvent,
)
    requires
        started(builder, start, numbers, ambient),
        finished(builder, left, run_id, end_ns, output, event),
    ensures
        event.global_sequence == numbers.global,
        event.request_sequence == numbers.request,
        event.timestamp_ns == ambient.now_ns,
        event.end_timestamp_ns == Some(end_ns),
        start.correlation_id is Some ==> event.correlation_id.deep_view()
            == start.correlation_id.deep_view(),
        start.correlation_id is None ==> event.correlation_id.deep_view()
            == ambient.correlation_id.deep_view(),
        event.boundary@ == start.spec.boundary@,
        event.trait_name@ == start.spec.trait_name@,
        event.method_name@ == start.spec.method_name@,
        event.call_file@ == start.caller.file@,
        event.call_line == start.caller.line,
        event.call_column == start.caller.column,
        event.receiver == start.receiver,
        event.args@ == start.args@,
        event.request@ == start.args@,
        event.result@ == output.result@,
        event.response@ == output.result@,
        event.is_error == output.is_error,
        event.callsite_identity == start.identity,
        event.replay_strategy == start.spec.replay_strategy,
        event.kind == start.spec.kind,
        event.declaration is Some ==> event.declaration == start.spec.declaration,
        start.spec.declaration matches Some(d) ==> (d.effect is Some || d.op is Some
            || d.return_shape is Some || d.codec is Some || d.state_canon is Some
            || d.reply_canon is Some ==> event.declaration is Some),
        event.graph_node_id == ambient.graph_node_id,
        event.tracing_span_id == ambient.tracing_span_id,
        event.task_id.deep_view() == Some(left.task().task_id),
        event.parent_task_id.deep_view() == left.task().parent_task_id,
        event.bucket_id.deep_view() == Some(left.task().bucket_id),
        event.task_bucket.deep_view() == Some(left.task().bucket_id),
        event.fork_seq == Some(left.task().fork_seq),
        run_id is Some ==> event.recording_run_id.deep_view() == run_id,
        run_id is None ==> event.recording_run_id.deep_view() == left.process_run_id.deep_view(),
        event.value_digest == Some(digest_of(start.args@, output.result@)),
        forall|k: Seq<char>| #[trigger]
            texts(event.read_set@).contains(k) <==> texts(output.read_set@).contains(k) || (
            start.state_capture is Some && texts(start.state_capture->0.read_set@).contains(k)),
        forall|k: Seq<char>| #[trigger]
            texts(event.write_set@).contains(k) <==> texts(output.write_set@).contains(k) || (
            start.state_capture is Some && texts(start.state_capture->0.write_set@).contains(k)),
        output.result_image is Some ==> event.result_image == output.result_image,
        output.pre_image is Some ==> event.pre_image == output.pre_image,
        output.result_image is None && start.state_capture is Some ==> event.result_image
            == start.state_capture->0.result_image,
        output.pre_image is None && start.state_capture is Some ==> event.pre_image
            == start.state_capture->0.pre_image,
        output.result_image is None && start.state_capture is None ==> event.result_image is None,
        output.pre_image is None && start.state_capture is None ==> event.pre_image is None,
{
    let (context, whole) = choose|context: FinishContext, whole: EventBuilder|
        finishes_in(context, left, run_id, end_ns) && builder.takes(output, whole)
            && #[trigger] whole.finishes(context, output.result, output.is_error, event);
    finished_events_say_the_call(whole, context, output.result, output.is_error, event);
    keys_are_added_once_each(stated(builder.explicit_read_set), texts(output.read_set@));
    keys_are_added_once_each(stated(builder.explicit_write_set), texts(output.write_set@));
    assert(context.lineage@.task_id == left.task().task_id);
}

/// A call is looked up by its boundary, its site, its place and its arguments.
pub proof fn calls_are_looked_up_by_what_they_are(
    spec: &BoundarySpec,
    identity: Option<&CallsiteIdentity>,
    caller: CallLocation,
    args: &Json,
)
    ensures
        ({
            let q = lookup_of(spec, identity, caller, args);
            &&& q.boundary@ == spec.boundary@
            &&& q.trait_name@ == spec.trait_name@
            &&& q.method_name@ == spec.method_name@
            &&& q.args@ == args@
            &&& q.callsite_identity == identity
            &&& q.caller_location == Some(caller)
        }),
{
}

/// A call that is substituted under replay gives what was recorded, read as what
/// the call gives. It is a miss only where the hook found nothing, and unreadable
/// only where the hook found something that could not be read.
pub proof fn substituted_calls_give_what_was_recorded<
    H: DejaHook,
    T,
    C: FnOnce(Json) -> Reconstructed<T>,
>(
    before: H,
    query: ReplayLookup<'_>,
    ambient: Ambient,
    reconstruct: C,
    after: H,
    r: Result<T, FailStop>,
)
    requires
        substituted(before, query, ambient, reconstruct, after, r),
    ensures
        r matches Ok(value) ==> exists|recorded: Json| #[trigger]
            before.looks_up(query, ambient, after, Some(recorded)) && reconstruct.ensures(
                (recorded,),
                Reconstructed::Value(value),
            ),
        r matches Err(why) ==> {
            &&& why is SubstituteMiss ==> before.looks_up(query, ambient, after, None)
            &&& why is SubstituteUnreconstructable ==> exists|recorded: Json| #[trigger]
                before.looks_up(query, ambient, after, Some(recorded)) && reconstruct.ensures(
                    (recorded,),
                    Reconstructed::Failed,
                )
            &&& !(why is ExecuteShadowUnavailable)
        },
        !before.looks_up(query, ambient, after, None) ==> !(r is Err
            && r->Err_0 is SubstituteMiss),
{
}

/// A call that is executed under replay gives what it gave when it ran, and was
/// looked up before and observed behind, by what it gave; it stops only where the
/// hook had no token for it, and then did not run.
pub proof fn executed_calls_give_what_they_gave<
    H: DejaHook,
    T,
    F: FnOnce() -> T,
    R: FnOnce(&T) -> RecordedOutput,
>(
    before: H,
    query: ReplayLookup<'_>,
    ambient: Ambient,
    run: F,
    extract: R,
    after: H,
    r: Result<T, FailStop>,
)
    requires
        shadowed(before, query, ambient, run, extract, after, r),
    ensures
        r matches Ok(out) ==> run.ensures((), out) && exists|
            mid: H,
            token: ExecuteShadowToken,
            output: RecordedOutput,
        |
            before.peeks(query, ambient, mid, Some(token)) && extract.ensures((&out,), output)
                && #[trigger] mid.observes(token, output.result, after),
        r matches Err(why) ==> why is ExecuteShadowUnavailable && before.peeks(
            query,
            ambient,
            after,
            None,
        ),
{
}

/// Under replay a boundary goes by what it declares: it is executed or substituted.
pub proof fn replay_goes_by_the_strategy<
    H: DejaHook,
    T,
    F: FnOnce() -> T,
    C: FnOnce(Json) -> Reconstructed<T>,
    R: FnOnce(&T) -> RecordedOutput,
>(
    before: H,
    query: ReplayLookup<'_>,
    ambient: Ambient,
    run: F,
    reconstruct: C,
    extract: R,
    after: H,
    r: Result<T, FailStop>,
)
    ensures
        replayed(
            before,
            ReplayStrategy::Execute,
            query,
            ambient,
            run,
            reconstruct,
            extract,
            after,
            r,
        ) <==> shadowed(before, query, ambient, run, extract, after, r),
        replayed(
            before,
            ReplayStrategy::Substitute,
            query,
            ambient,
            run,
            reconstruct,
            extract,
            after,
            r,
        ) <==> substituted(before, query, ambient, reconstruct, after, r),
{
}

/// A call that is recorded runs and gives what it gave, and its hook then holds its
/// event: numbered by the hook before it ran, said by what it was started with and
/// by what was extracted from what it gave, and closed at a time read off the clock
/// behind it.
pub proof fn recorded_calls_are_given_and_held<
    H: DejaHook,
    T,
    F: FnOnce() -> T,
    L: FnOnce() -> Ambient,
    R: FnOnce(&T) -> RecordedOutput,
>(
    before: H,
    start: EventStart,
    ambient: Ambient,
    run: F,
    leave: L,
    extract: R,
    after: H,
    out: T,
)
    requires
        ran_recorded(before, start, ambient, run, leave, extract, after, out),
    ensures
        run.ensures((), out),
        exists|
            first: H,
            mid: H,
            numbers: Sequences,
            builder: EventBuilder,
            left: Ambient,
            end_ns: u64,
            output: RecordedOutput,
            event: BoundaryEvent,
        |
            before.numbers(first, numbers.global) && #[trigger] first.numbers_in(
                event_correlation(start.correlation_id, ambient),
                mid,
                numbers.request,
            ) && #[trigger] started(builder, start, numbers, ambient) && leave.ensures((), left)
                && extract.ensures((&out,), output) && #[trigger] mid.records(event, after)
                && read_off_the_clock(end_ns) && #[trigger] finished(
                builder,
                left,
                mid.run(),
                end_ns,
                output,
                event,
            ),
{
    let (mid, builder, left) = choose|mid: H, builder: EventBuilder, left: Ambient| #[trigger]
        starts(before, start, ambient, mid, builder) && #[trigger] leave.ensures((), left)
            && recorded(mid, builder, left, out, extract, after);
    let (first, numbers) = choose|first: H, numbers: Sequences| #[trigger]
        before.numbers(first, numbers.global) && first.numbers_in(
            event_correlation(start.correlation_id, ambient),
            mid,
            numbers.request,
        ) && #[trigger] started(builder, start, numbers, ambient);
    let (output, event, end_ns) = choose|output: RecordedOutput, event: BoundaryEvent, end_ns: u64|
        read_off_the_clock(end_ns) && extract.ensures((&out,), output) && mid.records(event, after)
            && #[trigger] finished(builder, left, mid.run(), end_ns, output, event);
    assert(first.numbers_in(
        event_correlation(start.correlation_id, ambient),
        mid,
        numbers.request,
    ));
}

} // verus!
