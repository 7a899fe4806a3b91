//! The course of one boundary crossing: whether the call runs, is looked up or
//! stops the request, step by step.

use vstd::prelude::*;
use crate::event::{ExecuteMode, ReplayStrategy, RuntimeMode};
use crate::text::joined;

verus! {

/// Why a crossing stops its request.
#[derive(Debug, Clone, Copy, PartialEq, Eq, Structural)]
pub enum FailStop {
    /// Nothing was recorded for the call, and running it is unsafe.
    SubstituteMiss,
    /// What was recorded cannot be read as what the call gives.
    SubstituteUnreconstructable,
    /// The live call could not be observed.
    ExecuteShadowUnavailable,
}

/// Why a request stops, in words.
pub open spec fn stop_message(why: FailStop, boundary: Seq<char>, method: Seq<char>) -> Seq<char> {
    let call = boundary + "::"@ + method;
    match why {
        FailStop::SubstituteMiss => "deja replay fail-stop: Substitute boundary `"@ + call
            + "` missed the recording (args diverged or novel call). No recorded value for these args and re-running is unsafe; halting this request. Declare `replay_strategy = Execute` to recompute instead of stopping."@,
        FailStop::SubstituteUnreconstructable => "deja replay fail-stop: Substitute boundary `"@
            + call
            + "` hit the recording, but the recorded result could not be reconstructed into the boundary return type. Re-running is unsafe; halting this request. Declare `replay_strategy = Execute` to recompute instead of substituting."@,
        FailStop::ExecuteShadowUnavailable => "deja replay fail-stop: Execute boundary `"@ + call
            + "` could not acquire an execute-shadow token before running the real boundary; halting this request."@,
    }
}

fn around_call(before: &str, boundary: &str, method: &str, after: &str) -> (r: String)
    ensures
        r@ == before@ + (boundary@ + "::"@ + method@) + after@,
{
    let call = joined(joined(boundary, "::").as_str(), method);
    joined(joined(before, call.as_str()).as_str(), after)
}

/// The message of a request that stops because nothing was recorded for a call.
/// It only gives the message: whoever asks for it stops the request with it.
#[must_use]
pub fn fail_stop_substitute_miss(boundary: &str, method: &str) -> (r: String)
    ensures
        r@ == stop_message(FailStop::SubstituteMiss, boundary@, method@),
{
    around_call(
        "deja replay fail-stop: Substitute boundary `",
        boundary,
        method,
        "` missed the recording (args diverged or novel call). No recorded value for these args and re-running is unsafe; halting this request. Declare `replay_strategy = Execute` to recompute instead of stopping.",
    )
}

/// The message of a request that stops because a recorded result cannot be
/// read. It only gives the message: whoever asks for it stops the request with
/// it.
#[must_use]
pub fn fail_stop_substitute_unreconstructable(boundary: &str, method: &str) -> (r: String)
    ensures
        r@ == stop_message(FailStop::SubstituteUnreconstructable, boundary@, method@),
{
    around_call(
        "deja replay fail-stop: Substitute boundary `",
        boundary,
        method,
        "` hit the recording, but the recorded result could not be reconstructed into the boundary return type. Re-running is unsafe; halting this request. Declare `replay_strategy = Execute` to recompute instead of substituting.",
    )
}

/// The message of a request that stops because a live call cannot be observed.
/// It only gives the message: whoever asks for it stops the request with it.
#[must_use]
pub fn fail_stop_execute_shadow_unavailable(boundary: &str, method: &str) -> (r: String)
    ensures
        r@ == stop_message(FailStop::ExecuteShadowUnavailable, boundary@, method@),
{
    around_call(
        "deja replay fail-stop: Execute boundary `",
        boundary,
        method,
        "` could not acquire an execute-shadow token before running the real boundary; halting this request.",
    )
}

impl FailStop {
    /// The message of a request that stops.
    #[must_use]
    pub fn message(self, boundary: &str, method: &str) -> (r: String)
        ensures
            r@ == stop_message(self, boundary@, method@),
    {
        match self {
            FailStop::SubstituteMiss => fail_stop_substitute_miss(boundary, method),
            FailStop::SubstituteUnreconstructable => fail_stop_substitute_unreconstructable(
                boundary,
                method,
            ),
            FailStop::ExecuteShadowUnavailable => fail_stop_execute_shadow_unavailable(
                boundary,
                method,
            ),
        }
    }
}

/// What a boundary declares, as what replay does at it.
pub fn replay_strategy_to_execute_mode(strategy: ReplayStrategy) -> (r: ExecuteMode)
    ensures
        r == execute_mode(strategy),
{
    match strategy {
        ReplayStrategy::Execute => ExecuteMode::Execute,
        ReplayStrategy::Substitute => ExecuteMode::Lookup,
    }
}

/// What replay does at a boundary that declares this.
pub open spec fn execute_mode(strategy: ReplayStrategy) -> ExecuteMode {
    match strategy {
        ReplayStrategy::Execute => ExecuteMode::Execute,
        ReplayStrategy::Substitute => ExecuteMode::Lookup,
    }
}

/// What is to be done next in a crossing.
#[derive(Debug, Clone, Copy, PartialEq, Eq, Structural)]
pub enum Step {
    /// Run the call and return what it gives; nothing is noted of it.
    Run,
    /// Start an event, run the call, record what it gave, and return it.
    RunRecorded,
    /// Look the call up, to observe it live.
    Peek,
    /// Run the call, with a token to observe it by.
    RunShadowed,
    /// Observe what the live call gave.
    Observe,
    /// Look the call up, for its recorded result.
    LookUp,
    /// Read the recorded result as what the call gives.
    Reconstruct,
    /// Return the value at hand.
    Return,
    /// Go on without a recorded result, as the boundary has it; a boundary that
    /// has nothing for it stops the request.
    Miss,
    /// Stop the request.
    Stop(FailStop),
}

/// What came of a step.
#[derive(Debug, Clone, Copy, PartialEq, Eq, Structural)]
pub enum Outcome {
    /// The call has run.
    Ran,
    /// Looking the call up gave a token, or none.
    Peeked(bool),
    /// The live call was observed.
    Observed,
    /// Looking the call up gave a result, or none.
    LookedUp(bool),
    /// The recorded result was read, or could not be.
    Reconstructed(bool),
}

/// The first step of a crossing.
pub open spec fn first_step(mode: RuntimeMode, strategy: ReplayStrategy) -> Step {
    match mode {
        RuntimeMode::Disabled => Step::Run,
        RuntimeMode::Record => Step::RunRecorded,
        RuntimeMode::Replay => match strategy {
            ReplayStrategy::Execute => Step::Peek,
            ReplayStrategy::Substitute => Step::LookUp,
        },
    }
}

/// The step behind another. A step that ends a crossing has none behind it, and
/// what cannot come of a step changes nothing.
pub open spec fn step_behind(step: Step, outcome: Outcome) -> Step {
    match (step, outcome) {
        (Step::Run, Outcome::Ran) => Step::Return,
        (Step::RunRecorded, Outcome::Ran) => Step::Return,
        (Step::Peek, Outcome::Peeked(true)) => Step::RunShadowed,
        (Step::Peek, Outcome::Peeked(false)) => Step::Stop(FailStop::ExecuteShadowUnavailable),
        (Step::RunShadowed, Outcome::Ran) => Step::Observe,
        (Step::Observe, Outcome::Observed) => Step::Return,
        (Step::LookUp, Outcome::LookedUp(true)) => Step::Reconstruct,
        (Step::LookUp, Outcome::LookedUp(false)) => Step::Miss,
        (Step::Reconstruct, Outcome::Reconstructed(true)) => Step::Return,
        (Step::Reconstruct, Outcome::Reconstructed(false)) => Step::Stop(
            FailStop::SubstituteUnreconstructable,
        ),
        _ => step,
    }
}

/// The first step of a crossing.
pub fn begin(mode: RuntimeMode, strategy: ReplayStrategy) -> (r: Step)
    ensures
        r == first_step(mode, strategy),
{
    match mode {
        RuntimeMode::Disabled => Step::Run,
        RuntimeMode::Record => Step::RunRecorded,
        RuntimeMode::Replay => match replay_strategy_to_execute_mode(strategy) {
            ExecuteMode::Execute => Step::Peek,
            ExecuteMode::Lookup => Step::LookUp,
        },
    }
}

/// The step behind another.
pub fn advance(step: Step, outcome: Outcome) -> (r: Step)
    ensures
        r == step_behind(step, outcome),
{
    match (step, outcome) {
        (Step::Run, Outcome::Ran) => Step::Return,
        (Step::RunRecorded, Outcome::Ran) => Step::Return,
        (Step::Peek, Outcome::Peeked(found)) => if found {
            Step::RunShadowed
        } else {
            Step::Stop(FailStop::ExecuteShadowUnavailable)
        },
        (Step::RunShadowed, Outcome::Ran) => Step::Observe,
        (Step::Observe, Outcome::Observed) => Step::Return,
        (Step::LookUp, Outcome::LookedUp(found)) => if found {
            Step::Reconstruct
        } else {
            Step::Miss
        },
        (Step::Reconstruct, Outcome::Reconstructed(read)) => if read {
            Step::Return
        } else {
            Step::Stop(FailStop::SubstituteUnreconstructable)
        },
        _ => step,
    }
}

/// Where a crossing is after what came of its steps.
pub open spec fn step_after(
    mode: RuntimeMode,
    strategy: ReplayStrategy,
    outcomes: Seq<Outcome>,
) -> Step
    decreases outcomes.len(),
{
    if outcomes.len() == 0 {
        first_step(mode, strategy)
    } else {
        step_behind(step_after(mode, strategy, outcomes.drop_last()), outcomes.last())
    }
}

/// Whether a step runs the call.
pub open spec fn runs(step: Step) -> bool {
    step is Run || step is RunRecorded || step is RunShadowed
}

/// Whether a step asks the hook to replay.
pub open spec fn replays(step: Step) -> bool {
    step is Peek || step is LookUp || step is Reconstruct || step is Miss || step is Stop
}

/// Whatever comes of its steps, a crossing of a boundary that is substituted
/// under replay never runs the call.
pub proof fn substituted_calls_never_run(outcomes: Seq<Outcome>)
    ensures
        !runs(step_after(RuntimeMode::Replay, ReplayStrategy::Substitute, outcomes)),
        ({
            let step = step_after(RuntimeMode::Replay, ReplayStrategy::Substitute, outcomes);
            step is LookUp || step is Reconstruct || step is Return || step is Miss || step
                == Step::Stop(FailStop::SubstituteUnreconstructable)
        }),
    decreases outcomes.len(),
{
    if outcomes.len() > 0 {
        substituted_calls_never_run(outcomes.drop_last());
    }
}

/// A crossing of a boundary that is executed under replay runs the call only
/// once there is a token to observe it by, and returns only once the call was
/// observed.
pub proof fn executed_calls_are_observed(outcomes: Seq<Outcome>)
    ensures
        ({
            let step = step_after(RuntimeMode::Replay, ReplayStrategy::Execute, outcomes);
            &&& runs(step) ==> step is RunShadowed && outcomes.contains(Outcome::Peeked(true))
            &&& step is Return ==> outcomes.contains(Outcome::Peeked(true)) && outcomes.contains(
                Outcome::Ran,
            ) && outcomes.contains(Outcome::Observed)
            &&& step is Observe ==> outcomes.contains(Outcome::Peeked(true)) && outcomes.contains(
                Outcome::Ran,
            )
            &&& step is Peek || step is RunShadowed || step is Observe || step is Return || step
                == Step::Stop(FailStop::ExecuteShadowUnavailable)
        }),
    decreases outcomes.len(),
{
    if outcomes.len() > 0 {
        let before = outcomes.drop_last();
        executed_calls_are_observed(before);
        let last = outcomes.len() - 1;
        assert(outcomes[last] == outcomes.last());
        assert forall|o: Outcome| before.contains(o) implies outcomes.contains(o) by {
            let i = choose|i: int| 0 <= i < before.len() && before[i] == o;
            assert(outcomes[i] == o);
        }
    }
}

/// Outside replay a crossing never asks the hook to replay, and never stops the
/// request.
pub proof fn only_replay_replays(
    mode: RuntimeMode,
    strategy: ReplayStrategy,
    outcomes: Seq<Outcome>,
)
    requires
        !(mode is Replay),
    ensures
        !replays(step_after(mode, strategy, outcomes)),
        ({
            let step = step_after(mode, strategy, outcomes);
            step is Run || step is RunRecorded || step is Return
        }),
    decreases outcomes.len(),
{
    if outcomes.len() > 0 {
        only_replay_replays(mode, strategy, outcomes.drop_last());
    }
}

/// What is done at a boundary follows from the mode and from what the boundary
/// declares: disabled, the call runs unnoted; recording, it runs and is recorded;
/// replaying, it is looked up, or made live and observed where it is declared to
/// be executed.
pub proof fn modes_choose_the_first_step(mode: RuntimeMode, strategy: ReplayStrategy)
    ensures
        mode is Disabled <==> first_step(mode, strategy) is Run,
        mode is Record <==> first_step(mode, strategy) is RunRecorded,
        mode is Replay && strategy is Substitute <==> first_step(mode, strategy) is LookUp,
        mode is Replay && strategy is Execute <==> first_step(mode, strategy) is Peek,
        strategy is Execute <==> execute_mode(strategy) is Execute,
        strategy is Substitute <==> execute_mode(strategy) is Lookup,
{
}

/// A step is followed by what came of it: a call that ran returns, or is observed
/// first where it ran shadowed; a token lets the call run and the lack of one
/// stops the request; what was found is read and what was not is a miss; what was
/// read is returned and what could not be stops the request. A step that ended is
/// followed by nothing.
pub proof fn outcomes_choose_the_next_step(step: Step, outcome: Outcome)
    ensures
        step is Run && outcome is Ran ==> step_behind(step, outcome) is Return,
        step is RunRecorded && outcome is Ran ==> step_behind(step, outcome) is Return,
        step is RunShadowed && outcome is Ran ==> step_behind(step, outcome) is Observe,
        step is Observe && outcome is Observed ==> step_behind(step, outcome) is Return,
        step is Peek && outcome == Outcome::Peeked(true) ==> step_behind(
            step,
            outcome,
        ) is RunShadowed,
        step is Peek && outcome == Outcome::Peeked(false) ==> step_behind(step, outcome)
            == Step::Stop(FailStop::ExecuteShadowUnavailable),
        step is LookUp && outcome == Outcome::LookedUp(true) ==> step_behind(
            step,
            outcome,
        ) is Reconstruct,
        step is LookUp && outcome == Outcome::LookedUp(false) ==> step_behind(step, outcome) is Miss,
        step is Reconstruct && outcome == Outcome::Reconstructed(true) ==> step_behind(
            step,
            outcome,
        ) is Return,
        step is Reconstruct && outcome == Outcome::Reconstructed(false) ==> step_behind(
            step,
            outcome,
        ) == Step::Stop(FailStop::SubstituteUnreconstructable),
        step is Return || step is Miss || step is Stop ==> step_behind(step, outcome) == step,
{
}

/// A request that stops names its boundary and method.
pub proof fn stops_name_the_call(why: FailStop, boundary: Seq<char>, method: Seq<char>)
    ensures
        exists|before: Seq<char>, behind: Seq<char>|
            stop_message(why, boundary, method) == #[trigger] (before + (boundary + "::"@ + method)
                + behind),
{
    let call = boundary + "::"@ + method;
    match why {
        FailStop::SubstituteMiss => {
            let a = "deja replay fail-stop: Substitute boundary `"@;
            let b = "` missed the recording (args diverged or novel call). No recorded value for these args and re-running is unsafe; halting this request. Declare `replay_strategy = Execute` to recompute instead of stopping."@;
            assert(stop_message(why, boundary, method) == a + call + b);
        },
        FailStop::SubstituteUnreconstructable => {
            let a = "deja replay fail-stop: Substitute boundary `"@;
            let b = "` hit the recording, but the recorded result could not be reconstructed into the boundary return type. Re-running is unsafe; halting this request. Declare `replay_strategy = Execute` to recompute instead of substituting."@;
            assert(stop_message(why, boundary, method) == a + call + b);
        },
        FailStop::ExecuteShadowUnavailable => {
            let a = "deja replay fail-stop: Execute boundary `"@;
            let b = "` could not acquire an execute-shadow token before running the real boundary; halting this request."@;
            assert(stop_message(why, boundary, method) == a + call + b);
        },
    }
}

} // verus!
