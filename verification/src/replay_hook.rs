//! Replay along the tape of a recording: each call is matched against the
//! events of its correlation, from where the last match left off.

use vstd::prelude::*;
use crate::ambient::{Ambient, ReplayLookup};
use crate::event::{
    correlation_matches, in_correlation, BoundaryEvent, CallsiteIdentity, CallsiteSource,
};
use crate::json::{json_eq, Json, JsonView};
use crate::lookup_hook::site;
use crate::report::{
    argless, Divergence, DivergenceKind, DivergenceKindView, DivergenceView, ReplayConfig,
    ReplayReport, ReplayReportView,
};
use crate::table::{CallsiteKey, CallsiteKeyView, CorrelationKey, Table};
use crate::text::{decimal, decimal_text, joined, opt_str, opt_string, opt_text_eq, text_eq};

verus! {

/// Where an event goes among those already in order: behind all that stand at
/// or before it in the request.
pub open spec fn tape_slot(order: Seq<usize>, events: Seq<BoundaryEvent>, sequence: u64) -> nat
    decreases order.len(),
{
    if order.len() == 0 || events[order.last() as int].request_sequence <= sequence {
        order.len()
    } else {
        tape_slot(order.drop_last(), events, sequence)
    }
}

/// The tape of a correlation: the places of its events, by their position in
/// the request; events at one position as they were recorded.
pub open spec fn tape(events: Seq<BoundaryEvent>, correlation_id: Option<Seq<char>>) -> Seq<usize>
    decreases events.len(),
{
    if events.len() == 0 {
        Seq::empty()
    } else {
        let before = tape(events.drop_last(), correlation_id);
        if in_correlation(events.last(), correlation_id) {
            before.insert(
                tape_slot(before, events, events.last().request_sequence) as int,
                (events.len() - 1) as usize,
            )
        } else {
            before
        }
    }
}

proof fn slot_is_within(order: Seq<usize>, events: Seq<BoundaryEvent>, sequence: u64)
    ensures
        tape_slot(order, events, sequence) <= order.len(),
    decreases order.len(),
{
    if order.len() > 0 {
        slot_is_within(order.drop_last(), events, sequence);
    }
}

proof fn slot_reads_what_it_orders(
    order: Seq<usize>,
    a: Seq<BoundaryEvent>,
    b: Seq<BoundaryEvent>,
    sequence: u64,
)
    requires
        forall|k: int| 0 <= k < order.len() ==> a[(#[trigger] order[k]) as int] == b[order[k] as int],
    ensures
        tape_slot(order, a, sequence) == tape_slot(order, b, sequence),
    decreases order.len(),
{
    if order.len() > 0 {
        assert(a[order[order.len() - 1] as int] == b[order[order.len() - 1] as int]);
        slot_reads_what_it_orders(order.drop_last(), a, b, sequence);
    }
}

proof fn tape_is_in_range(events: Seq<BoundaryEvent>, correlation_id: Option<Seq<char>>)
    requires
        events.len() <= usize::MAX,
    ensures
        tape(events, correlation_id).len() <= events.len(),
        forall|k: int|
            0 <= k < tape(events, correlation_id).len() ==> (#[trigger] tape(
                events,
                correlation_id,
            )[k]) < events.len(),
    decreases events.len(),
{
    if events.len() > 0 {
        let before = tape(events.drop_last(), correlation_id);
        tape_is_in_range(events.drop_last(), correlation_id);
        slot_is_within(before, events, events.last().request_sequence);
    }
}

/// Whether an event stands before another on a tape.
pub open spec fn stands_before(events: Seq<BoundaryEvent>, a: usize, b: usize) -> bool {
    events[a as int].request_sequence < events[b as int].request_sequence || (
    events[a as int].request_sequence == events[b as int].request_sequence && a < b)
}

proof fn slot_splits(order: Seq<usize>, events: Seq<BoundaryEvent>, sequence: u64)
    requires
        forall|a: int, b: int|
            0 <= a < b < order.len() ==> stands_before(
                events,
                #[trigger] order[a],
                #[trigger] order[b],
            ),
    ensures
        ({
            let k = tape_slot(order, events, sequence);
            &&& k <= order.len()
            &&& forall|a: int|
                0 <= a < k ==> events[(#[trigger] order[a]) as int].request_sequence <= sequence
            &&& forall|a: int|
                k <= a < order.len() ==> events[(#[trigger] order[a]) as int].request_sequence
                    > sequence
        }),
    decreases order.len(),
{
    if order.len() > 0 {
        let last = order.len() - 1;
        if events[order[last] as int].request_sequence <= sequence {
            assert forall|a: int| 0 <= a < order.len() implies events[(
            #[trigger] order[a]) as int].request_sequence <= sequence by {
                if a < last {
                    assert(stands_before(events, order[a], order[last]));
                }
            }
        } else {
            let fewer = order.drop_last();
            assert forall|a: int, b: int| 0 <= a < b < fewer.len() implies stands_before(
                events,
                #[trigger] fewer[a],
                #[trigger] fewer[b],
            ) by {
                assert(stands_before(events, order[a], order[b]));
            }
            slot_splits(fewer, events, sequence);
            let k = tape_slot(order, events, sequence);
            assert forall|a: int| 0 <= a < k implies events[(
            #[trigger] order[a]) as int].request_sequence <= sequence by {
                assert(fewer[a] == order[a]);
            }
            assert forall|a: int| k <= a < order.len() implies events[(
            #[trigger] order[a]) as int].request_sequence > sequence by {
                if a < last {
                    assert(fewer[a] == order[a]);
                }
            }
        }
    }
}

/// A tape holds the events of its correlation, each once, by their position in
/// the request, and events at one position as they were recorded.
#[verifier::rlimit(30)]
pub proof fn tapes_are_in_order(events: Seq<BoundaryEvent>, correlation_id: Option<Seq<char>>)
    requires
        events.len() <= usize::MAX,
    ensures
        ({
            let t = tape(events, correlation_id);
            &&& forall|a: int, b: int|
                0 <= a < b < t.len() ==> stands_before(events, #[trigger] t[a], #[trigger] t[b])
            &&& forall|i: usize| #[trigger]
                t.contains(i) <==> i < events.len() && in_correlation(
                    events[i as int],
                    correlation_id,
                )
        }),
    decreases events.len(),
{
    let t = tape(events, correlation_id);
    if events.len() > 0 {
        let fewer = events.drop_last();
        let before = tape(fewer, correlation_id);
        let last = (events.len() - 1) as usize;
        tapes_are_in_order(fewer, correlation_id);
        tape_is_in_range(fewer, correlation_id);
        assert forall|a: int, b: int| 0 <= a < b < before.len() implies stands_before(
            events,
            #[trigger] before[a],
            #[trigger] before[b],
        ) by {
            assert(stands_before(fewer, before[a], before[b]));
        }
        if in_correlation(events.last(), correlation_id) {
            let s = events.last().request_sequence;
            let k = tape_slot(before, events, s) as int;
            slot_splits(before, events, s);
            assert(t == before.insert(k, last));
            assert forall|a: int, b: int| 0 <= a < b < t.len() implies stands_before(
                events,
                #[trigger] t[a],
                #[trigger] t[b],
            ) by {
                if a < k && b < k {
                    assert(stands_before(events, before[a], before[b]));
                } else if a < k && b == k {
                    assert(events[before[a] as int].request_sequence <= s);
                    assert(before[a] < last);
                } else if a < k {
                    assert(stands_before(events, before[a], before[b - 1]));
                } else if a == k {
                    assert(events[before[b - 1] as int].request_sequence > s);
                } else {
                    assert(stands_before(events, before[a - 1], before[b - 1]));
                }
            }
            assert forall|i: usize| #[trigger]
                t.contains(i) <==> i < events.len() && in_correlation(
                    events[i as int],
                    correlation_id,
                ) by {
                assert(before.contains(i) <==> i < fewer.len() && in_correlation(
                    fewer[i as int],
                    correlation_id,
                ));
                if i == last {
                    assert(t[k] == i);
                } else if before.contains(i) {
                    let j = choose|j: int| 0 <= j < before.len() && before[j] == i;
                    if j < k {
                        assert(t[j] == i);
                    } else {
                        assert(t[j + 1] == i);
                    }
                } else if t.contains(i) {
                    let j = choose|j: int| 0 <= j < t.len() && t[j] == i;
                    if j < k {
                        assert(before[j] == i);
                    } else {
                        assert(before[j - 1] == i);
                    }
                }
            }
        } else {
            assert forall|i: usize| #[trigger]
                t.contains(i) <==> i < events.len() && in_correlation(
                    events[i as int],
                    correlation_id,
                ) by {
                assert(before.contains(i) <==> i < fewer.len() && in_correlation(
                    fewer[i as int],
                    correlation_id,
                ));
            }
        }
    }
}

/// The tape of a correlation.
#[verifier::loop_isolation(false)]
fn tape_of(events: &Vec<BoundaryEvent>, correlation_id: Option<&str>) -> (r: Vec<usize>)
    ensures
        r@ == tape(events@, correlation_id.deep_view()),
{
    let ghost c = correlation_id.deep_view();
    let mut order: Vec<usize> = Vec::new();
    let mut i: usize = 0;
    proof {
        assert(events@.take(0) =~= Seq::<BoundaryEvent>::empty());
    }
    while i < events.len()
        invariant
            0 <= i <= events@.len(),
            order@ == tape(events@.take(i as int), c),
        decreases events@.len() - i,
    {
        let ghost prefix = events@.take(i as int + 1);
        proof {
            assert(prefix.drop_last() =~= events@.take(i as int));
            assert(prefix.last() == events@[i as int]);
            tape_is_in_range(events@.take(i as int), c);
        }
        if correlation_matches(&events[i], correlation_id) {
            let sequence: u64 = events[i].request_sequence;
            let ghost want = tape_slot(order@, events@, sequence);
            let mut k: usize = order.len();
            proof {
                assert(order@.take(k as int) =~= order@);
                slot_reads_what_it_orders(order@, prefix, events@, sequence);
            }
            while k > 0 && events[order[k - 1]].request_sequence > sequence
                invariant
                    0 <= k <= order@.len(),
                    tape_slot(order@.take(k as int), events@, sequence) == want,
                decreases k,
            {
                proof {
                    assert(order@.take(k as int).drop_last() =~= order@.take(k as int - 1));
                    assert(order@.take(k as int).last() == order@[k as int - 1]);
                }
                k = k - 1;
            }
            proof {
                if k > 0 {
                    assert(order@.take(k as int).last() == order@[k as int - 1]);
                }
                assert(k == want);
            }
            order.insert(k, i);
        }
        i = i + 1;
    }
    proof {
        assert(events@.take(events@.len() as int) =~= events@);
    }
    order
}

/// A call, as it is matched.
pub struct CallQuery {
    pub boundary: Seq<char>,
    pub trait_name: Seq<char>,
    pub method_name: Seq<char>,
    pub args: JsonView,
}

/// Whether an event is of the method that is called.
pub open spec fn is_call(event: BoundaryEvent, q: CallQuery) -> bool {
    event.boundary@ == q.boundary && event.trait_name@ == q.trait_name && event.method_name@
        == q.method_name
}

/// Whether an event is of the call, arguments included.
pub open spec fn is_exact(event: BoundaryEvent, q: CallQuery) -> bool {
    is_call(event, q) && json_eq(event.args@, q.args)
}

/// The first place on a tape, from one place on and before another, whose event
/// is of the call (`exact`) or of its method.
pub open spec fn first_match(
    events: Seq<BoundaryEvent>,
    t: Seq<usize>,
    from: int,
    to: int,
    q: CallQuery,
    exact: bool,
) -> Option<int>
    decreases to - from,
{
    if from >= to {
        None
    } else if (if exact {
        is_exact(events[t[from] as int], q)
    } else {
        is_call(events[t[from] as int], q)
    }) {
        Some(from)
    } else {
        first_match(events, t, from + 1, to, q, exact)
    }
}

/// How a call was matched, with the place on the tape.
#[derive(Debug, Clone, Copy, PartialEq, Eq, Structural)]
pub enum MatchOutcome {
    /// The next event is of the call.
    Exact(usize),
    /// A later event is of the call.
    RecoveredSkip(usize),
    /// An event is of the method, with other arguments, and the policy allows
    /// its result to be given.
    RecoveredWithMismatch(usize),
    /// An event is of the method, with other arguments, and the policy forbids
    /// its result to be given.
    ArgSkipBlocked(usize),
    /// No event in the window is of the method.
    Novel,
}

/// How a call is matched: the next event first, then the events in the window
/// with the same arguments, then those with others.
pub open spec fn matching(
    events: Seq<BoundaryEvent>,
    t: Seq<usize>,
    position: int,
    config: ReplayConfig,
    q: CallQuery,
) -> MatchOutcome {
    let end = if position + config.sliding_window_size < t.len() {
        position + config.sliding_window_size
    } else {
        t.len() as int
    };
    if position >= t.len() {
        MatchOutcome::Novel
    } else if is_exact(events[t[position] as int], q) {
        MatchOutcome::Exact(position as usize)
    } else {
        match first_match(events, t, position, end, q, true) {
            Some(i) => MatchOutcome::RecoveredSkip(i as usize),
            None => match first_match(events, t, position, end, q, false) {
                Some(i) => if config.arg_mismatch_policy.allows(q.args) {
                    MatchOutcome::RecoveredWithMismatch(i as usize)
                } else {
                    MatchOutcome::ArgSkipBlocked(i as usize)
                },
                None => MatchOutcome::Novel,
            },
        }
    }
}

/// What a call does: where it leaves the tape, what it adds to the report, and
/// what it is given.
pub struct Turn {
    pub position: int,
    pub report: ReplayReportView,
    pub result: Option<JsonView>,
}

/// A divergence of a call.
pub open spec fn divergence(
    kind: DivergenceKindView,
    q: CallQuery,
    detail: Seq<char>,
    baseline: Option<JsonView>,
    candidate: Option<JsonView>,
    global_sequence: u64,
) -> DivergenceView {
    DivergenceView {
        kind,
        boundary: q.boundary,
        trait_name: q.trait_name,
        method_name: q.method_name,
        detail,
        baseline,
        candidate,
        global_sequence,
    }
}

/// What a call does once it was matched.
pub open spec fn turn(
    events: Seq<BoundaryEvent>,
    t: Seq<usize>,
    position: int,
    report: ReplayReportView,
    q: CallQuery,
    outcome: MatchOutcome,
) -> Turn {
    match outcome {
        MatchOutcome::Exact(i) => Turn {
            position: i + 1,
            report: report.matched(),
            result: Some(events[t[i as int] as int].result@),
        },
        MatchOutcome::RecoveredSkip(i) => {
            let event = events[t[i as int] as int];
            Turn {
                position: i + 1,
                report: report.diverged(
                    divergence(
                        DivergenceKindView::OmittedCall,
                        q,
                        "skipped "@ + decimal((i - position) as nat)
                            + " recorded call(s) to recover"@,
                        None,
                        None,
                        event.global_sequence,
                    ),
                ).matched(),
                result: Some(event.result@),
            }
        },
        MatchOutcome::RecoveredWithMismatch(i) => {
            let event = events[t[i as int] as int];
            Turn {
                position: i + 1,
                report: report.diverged(
                    divergence(
                        DivergenceKindView::ArgsDiverged,
                        q,
                        "args differed; skipped "@ + decimal((i - position) as nat)
                            + " call(s) and returned recorded result anyway"@,
                        Some(event.args@),
                        Some(q.args),
                        event.global_sequence,
                    ),
                ).matched(),
                result: Some(event.result@),
            }
        },
        MatchOutcome::ArgSkipBlocked(i) => Turn {
            position,
            report: report.diverged(
                divergence(
                    DivergenceKindView::ArgSkipBlocked,
                    q,
                    "arg mismatch fallback blocked"@,
                    Some(events[t[i as int] as int].args@),
                    Some(q.args),
                    0,
                ),
            ),
            result: None,
        },
        MatchOutcome::Novel => Turn {
            position,
            report: report.diverged(
                divergence(
                    DivergenceKindView::NovelCall,
                    q,
                    "call not found in recording — falling through to real implementation"@,
                    None,
                    Some(q.args),
                    0,
                ),
            ),
            result: None,
        },
    }
}

/// Whether an event has the identity: its source, its id and its occurrence.
pub open spec fn has_identity(event: BoundaryEvent, identity: CallsiteIdentity) -> bool {
    match event.callsite_identity {
        Some(recorded) => recorded.source == identity.source && recorded.id.deep_view()
            == identity.id.deep_view() && recorded.occurrence == identity.occurrence,
        None => false,
    }
}

/// The first place on a tape, from one place on, whose event has the identity.
pub open spec fn first_identity(
    events: Seq<BoundaryEvent>,
    t: Seq<usize>,
    from: int,
    identity: CallsiteIdentity,
) -> Option<int>
    decreases t.len() - from,
{
    if from >= t.len() {
        None
    } else if has_identity(events[t[from] as int], identity) {
        Some(from)
    } else {
        first_identity(events, t, from + 1, identity)
    }
}

/// What a call does that is matched by the identity of its site.
pub open spec fn identity_turn(
    events: Seq<BoundaryEvent>,
    t: Seq<usize>,
    position: int,
    config: ReplayConfig,
    report: ReplayReportView,
    identity: CallsiteIdentity,
    args: JsonView,
) -> Turn {
    match first_identity(events, t, position, identity) {
        None => Turn { position, report, result: None },
        Some(i) => {
            let event = events[t[i] as int];
            let q = CallQuery {
                boundary: event.boundary@,
                trait_name: event.trait_name@,
                method_name: event.method_name@,
                args,
            };
            if json_eq(event.args@, args) {
                Turn { position: i + 1, report: report.matched(), result: Some(event.result@) }
            } else if config.arg_mismatch_policy.allows(args) {
                Turn {
                    position: i + 1,
                    report: report.diverged(
                        divergence(
                            DivergenceKindView::ArgsDiverged,
                            q,
                            "args differed; returned identity-matched recorded result anyway"@,
                            Some(event.args@),
                            Some(args),
                            event.global_sequence,
                        ),
                    ).matched(),
                    result: Some(event.result@),
                }
            } else {
                Turn {
                    position,
                    report: report.diverged(
                        divergence(
                            DivergenceKindView::ArgSkipBlocked,
                            q,
                            "arg mismatch fallback blocked"@,
                            Some(event.args@),
                            Some(args),
                            event.global_sequence,
                        ),
                    ),
                    result: None,
                }
            }
        },
    }
}

/// Whether an identity holds where source lines shift.
pub open spec fn is_stable(identity: CallsiteIdentity) -> bool {
    identity.id is Some && (identity.source is Explicit || identity.source is SyntacticHash
        || identity.source is LexicalPath)
}

/// The place a matched call was found at.
pub open spec fn found_at(outcome: MatchOutcome) -> Option<usize> {
    match outcome {
        MatchOutcome::Exact(i) => Some(i),
        MatchOutcome::RecoveredSkip(i) => Some(i),
        MatchOutcome::RecoveredWithMismatch(i) => Some(i),
        MatchOutcome::ArgSkipBlocked(i) => Some(i),
        MatchOutcome::Novel => None,
    }
}

proof fn first_match_is_in_range(
    events: Seq<BoundaryEvent>,
    t: Seq<usize>,
    from: int,
    to: int,
    q: CallQuery,
    exact: bool,
)
    ensures
        first_match(events, t, from, to, q, exact) matches Some(i) ==> from <= i < to,
    decreases to - from,
{
    if from < to {
        first_match_is_in_range(events, t, from + 1, to, q, exact);
    }
}

proof fn first_identity_is_in_range(
    events: Seq<BoundaryEvent>,
    t: Seq<usize>,
    from: int,
    identity: CallsiteIdentity,
)
    ensures
        first_identity(events, t, from, identity) matches Some(i) ==> from <= i < t.len(),
    decreases t.len() - from,
{
    if from < t.len() {
        first_identity_is_in_range(events, t, from + 1, identity);
    }
}

/// Replays the events of a recording, correlation by correlation.
pub struct ReplayHook {
    config: ReplayConfig,
    all_events: Vec<BoundaryEvent>,
    tapes: Table<CorrelationKey, Vec<usize>>,
    positions: Table<CorrelationKey, usize>,
    report: ReplayReport,
    global_seq: u64,
    callsite_occurrence: Table<CallsiteKey, u64>,
}

impl ReplayHook {
    /// The recorded events.
    pub closed spec fn events(self) -> Seq<BoundaryEvent> {
        self.all_events@
    }

    /// How calls are matched.
    pub closed spec fn config(self) -> ReplayConfig {
        self.config
    }

    /// The tape of a correlation.
    pub open spec fn tape(self, correlation_id: Option<Seq<char>>) -> Seq<usize> {
        tape(self.events(), correlation_id)
    }

    /// Where on its tape a correlation is.
    pub closed spec fn position(self, correlation_id: Option<Seq<char>>) -> int {
        match self.positions.at(correlation_id) {
            Some(position) => position as int,
            None => 0,
        }
    }

    /// The report so far.
    pub closed spec fn report(self) -> ReplayReportView {
        self.report@
    }

    /// The next position among all events.
    pub closed spec fn upcoming_sequence(self) -> u64 {
        self.global_seq
    }

    /// The next occurrence at a call site.
    pub closed spec fn occurrence(self, key: CallsiteKeyView) -> u64 {
        self.callsite_occurrence.upcoming(key, 0)
    }

    /// The tapes that were laid out are those of the recording, no correlation
    /// is behind the end of its tape, a window never ends out of reach, and the
    /// report counts its divergences.
    pub closed spec fn wf(self) -> bool {
        &&& self.report@.counts_its_divergences()
        &&& self.config.sliding_window_size + self.all_events@.len() <= usize::MAX
        &&& forall|c: Option<Seq<char>>| #[trigger]
            self.tapes.at(c) matches Some(t) ==> t@ == tape(self.all_events@, c)
        &&& forall|c: Option<Seq<char>>|
            0 <= #[trigger] self.position(c) <= tape(self.all_events@, c).len()
    }

    /// Whether a replay differs from another in its report and in the position
    /// of one correlation only.
    pub open spec fn moved_on(
        self,
        before: ReplayHook,
        correlation_id: Option<Seq<char>>,
        turn: Turn,
    ) -> bool {
        &&& self.wf()
        &&& self.events() == before.events()
        &&& self.config() == before.config()
        &&& self.upcoming_sequence() == before.upcoming_sequence()
        &&& forall|key: CallsiteKeyView| #[trigger] self.occurrence(key) == before.occurrence(key)
        &&& self.report() == turn.report
        &&& forall|c: Option<Seq<char>>| #[trigger]
            self.position(c) == (if c == correlation_id {
                turn.position
            } else {
                before.position(c)
            })
    }

    /// A replay of the events, from the start of each tape.
    pub fn new(events: Vec<BoundaryEvent>, config: ReplayConfig, starting_global_seq: u64) -> (r:
        ReplayHook)
        requires
            config.sliding_window_size + events@.len() <= usize::MAX,
        ensures
            r.wf(),
            r.events() == events@,
            r.config() == config,
            r.upcoming_sequence() == starting_global_seq,
            r.report() == ReplayReportView::empty(),
            forall|c: Option<Seq<char>>| #[trigger] r.position(c) == 0,
            forall|key: CallsiteKeyView| #[trigger] r.occurrence(key) == 0,
    {
        ReplayHook {
            config,
            all_events: events,
            tapes: Table::new(),
            positions: Table::new(),
            report: ReplayReport::new(),
            global_seq: starting_global_seq,
            callsite_occurrence: Table::new(),
        }
    }

    /// A replay of the events as they were read, with the default settings or
    /// others. Its own numbers go on behind the recorded ones.
    #[verifier::loop_isolation(false)]
    pub fn with_config(events: Vec<BoundaryEvent>, config: ReplayConfig) -> (r: ReplayHook)
        requires
            config.sliding_window_size + events@.len() <= usize::MAX,
            forall|i: int|
                0 <= i < events@.len() ==> (#[trigger] events@[i]).global_sequence < u64::MAX,
        ensures
            r.wf(),
            r.events() == events@,
            r.config() == config,
            forall|i: int|
                0 <= i < events@.len() ==> (#[trigger] events@[i]).global_sequence
                    < r.upcoming_sequence(),
            events@.len() == 0 ==> r.upcoming_sequence() == 1,
            events@.len() > 0 ==> exists|i: int|
                0 <= i < events@.len() && (#[trigger] events@[i]).global_sequence + 1
                    == r.upcoming_sequence(),
            r.report() == ReplayReportView::empty(),
            forall|c: Option<Seq<char>>| #[trigger] r.position(c) == 0,
            forall|key: CallsiteKeyView| #[trigger] r.occurrence(key) == 0,
    {
        let mut max_seq: u64 = 0;
        let mut i: usize = 0;
        while i < events.len()
            invariant
                0 <= i <= events@.len(),
                max_seq < u64::MAX,
                forall|j: int| 0 <= j < i ==> (#[trigger] events@[j]).global_sequence <= max_seq,
                i == 0 ==> max_seq == 0,
                i > 0 ==> exists|j: int|
                    0 <= j < i && (#[trigger] events@[j]).global_sequence == max_seq,
            decreases events@.len() - i,
        {
            let sequence: u64 = events[i].global_sequence;
            proof {
                assert(events@[i as int].global_sequence == sequence);
            }
            if sequence >= max_seq {
                max_seq = sequence;
            }
            i = i + 1;
        }
        ReplayHook::new(events, config, max_seq + 1)
    }

    /// A replay of the events as they were read, with the default settings.
    pub fn from_events(events: Vec<BoundaryEvent>) -> (r: ReplayHook)
        requires
            20 + events@.len() <= usize::MAX,
            forall|i: int|
                0 <= i < events@.len() ==> (#[trigger] events@[i]).global_sequence < u64::MAX,
        ensures
            r.wf(),
            r.events() == events@,
            r.config().sliding_window_size == 20,
            r.config().arg_mismatch_policy is OnlyForArgful,
            forall|i: int|
                0 <= i < events@.len() ==> (#[trigger] events@[i]).global_sequence
                    < r.upcoming_sequence(),
            events@.len() == 0 ==> r.upcoming_sequence() == 1,
            events@.len() > 0 ==> exists|i: int|
                0 <= i < events@.len() && (#[trigger] events@[i]).global_sequence + 1
                    == r.upcoming_sequence(),
            r.report() == ReplayReportView::empty(),
            forall|c: Option<Seq<char>>| #[trigger] r.position(c) == 0,
            forall|key: CallsiteKeyView| #[trigger] r.occurrence(key) == 0,
    {
        ReplayHook::with_config(events, ReplayConfig::default())
    }

    /// The report so far.
    pub fn take_report(&self) -> (r: ReplayReport)
        ensures
            r@ == self.report(),
            self.wf() ==> r@.counts_its_divergences(),
    {
        self.report.clone()
    }

    /// Lays out the tape of a correlation, unless it is.
    fn cursor_for(&mut self, correlation_id: Option<&str>)
        requires
            old(self).wf(),
        ensures
            final(self).tapes.at(correlation_id.deep_view()) is Some,
            final(self).wf(),
            *final(self) == (ReplayHook { tapes: final(self).tapes, ..*old(self) }),
    {
        let ghost before = *self;
        let key = CorrelationKey { correlation_id: opt_string(correlation_id) };
        if self.tapes.get(&key).is_none() {
            let order = tape_of(&self.all_events, correlation_id);
            self.tapes.put(key, order);
        }
        proof {
            assert forall|c: Option<Seq<char>>|
                (#[trigger] self.tapes.at(c)) is Some implies self.tapes.at(c)->0@ == tape(
                self.all_events@,
                c,
            ) by {
                if c != correlation_id.deep_view() {
                    assert(self.tapes.at(c) == before.tapes.at(c));
                }
            }
            assert forall|c: Option<Seq<char>>|
                0 <= #[trigger] self.position(c) <= tape(self.all_events@, c).len() by {
                assert(self.position(c) == before.position(c));
            }
        }
    }

    fn position_of(&self, correlation_id: Option<&str>) -> (r: usize)
        ensures
            r == self.position(correlation_id.deep_view()),
    {
        match self.positions.get(
            &CorrelationKey { correlation_id: opt_string(correlation_id) },
        ) {
            Some(position) => *position,
            None => 0,
        }
    }

    fn move_to(&mut self, correlation_id: Option<&str>, position: usize)
        requires
            old(self).wf(),
            position <= tape(old(self).events(), correlation_id.deep_view()).len(),
        ensures
            final(self).wf(),
            *final(self) == (ReplayHook { positions: final(self).positions, ..*old(self) }),
            forall|c: Option<Seq<char>>| #[trigger]
                final(self).position(c) == (if c == correlation_id.deep_view() {
                    position as int
                } else {
                    old(self).position(c)
                }),
    {
        let ghost before = *self;
        self.positions.put(CorrelationKey { correlation_id: opt_string(correlation_id) }, position);
        proof {
            assert forall|c: Option<Seq<char>>| #[trigger]
                self.position(c) == (if c == correlation_id.deep_view() {
                    position as int
                } else {
                    before.position(c)
                }) by {
                if c != correlation_id.deep_view() {
                    assert(self.positions.at(c) == before.positions.at(c));
                }
            }
        }
    }

    /// Whether an event is of the method that is called.
    fn method_matches(
        event: &BoundaryEvent,
        boundary: &str,
        trait_name: &str,
        method_name: &str,
    ) -> (r: bool)
        ensures
            forall|q: CallQuery|
                q.boundary == boundary@ && q.trait_name == trait_name@ && q.method_name
                    == method_name@ ==> r == #[trigger] is_call(*event, q),
    {
        text_eq(event.boundary.as_str(), boundary) && text_eq(event.trait_name.as_str(), trait_name)
            && text_eq(event.method_name.as_str(), method_name)
    }

    /// The first place on a tape, from one place on and before another, whose
    /// event is of the call or of its method.
    #[verifier::loop_isolation(false)]
    fn scan(
        &self,
        order: &Vec<usize>,
        from: usize,
        to: usize,
        boundary: &str,
        trait_name: &str,
        method_name: &str,
        args: &Json,
        exact: bool,
    ) -> (r: Option<usize>)
        requires
            from <= to <= order@.len(),
            forall|k: int|
                0 <= k < order@.len() ==> (#[trigger] order@[k]) < self.all_events@.len(),
        ensures
            match r {
                Some(i) => Some(i as int),
                None => None,
            } == first_match(
                self.all_events@,
                order@,
                from as int,
                to as int,
                query_of(boundary@, trait_name@, method_name@, args@),
                exact,
            ),
    {
        let ghost q = query_of(boundary@, trait_name@, method_name@, args@);
        let ghost events = self.all_events@;
        let mut i: usize = from;
        while i < to
            invariant
                from <= i <= to,
                first_match(events, order@, from as int, to as int, q, exact) == first_match(
                    events,
                    order@,
                    i as int,
                    to as int,
                    q,
                    exact,
                ),
            decreases to - i,
        {
            let event = &self.all_events[order[i]];
            if Self::method_matches(event, boundary, trait_name, method_name) && (!exact
                || event.args.equals(args)) {
                proof {
                    assert(is_call(*event, q));
                }
                return Some(i);
            }
            proof {
                assert(!is_call(*event, q) || exact);
            }
            i = i + 1;
        }
        None
    }

    /// Matches a call against its tape, and moves behind what it was given.
    fn find_match(
        &mut self,
        boundary: &str,
        trait_name: &str,
        method_name: &str,
        args: &Json,
        correlation_id: Option<&str>,
    ) -> (r: (Option<usize>, MatchOutcome))
        requires
            old(self).wf(),
        ensures
            ({
                let c = correlation_id.deep_view();
                let t = old(self).tape(c);
                let position = old(self).position(c);
                let q = query_of(boundary@, trait_name@, method_name@, args@);
                let outcome = matching(old(self).events(), t, position, old(self).config(), q);
                &&& r.1 == outcome
                &&& r.0 == (match found_at(outcome) {
                    Some(i) => Some(t[i as int]),
                    None => None,
                })
                &&& r.0 matches Some(e) ==> e < old(self).events().len()
                &&& found_at(outcome) matches Some(i) ==> position <= i < t.len()
                &&& final(self).moved_on(
                    *old(self),
                    c,
                    Turn {
                        position: match outcome {
                            MatchOutcome::Exact(i) => i + 1,
                            MatchOutcome::RecoveredSkip(i) => i + 1,
                            MatchOutcome::RecoveredWithMismatch(i) => i + 1,
                            _ => position,
                        },
                        report: old(self).report(),
                        result: None,
                    },
                )
            }),
    {
        let ghost c = correlation_id.deep_view();
        let ghost q = query_of(boundary@, trait_name@, method_name@, args@);
        let ghost events = self.all_events@;
        let ghost t = tape(events, c);
        self.cursor_for(correlation_id);
        let pos = self.position_of(correlation_id);
        proof {
            tape_is_in_range(events, c);
            assert(0 <= self.position(c) <= t.len());
        }
        let key = CorrelationKey { correlation_id: opt_string(correlation_id) };
        let (at, outcome) = match self.tapes.get(&key) {
            None => (None, MatchOutcome::Novel),
            Some(order) => {
                proof {
                    assert(order@ == t);
                }
                if pos >= order.len() {
                    (None, MatchOutcome::Novel)
                } else {
                    let window = self.config.sliding_window_size;
                    let window_end: usize = if pos + window < order.len() {
                        pos + window
                    } else {
                        order.len()
                    };
                    proof {
                        first_match_is_in_range(events, t, pos as int, window_end as int, q, true);
                        first_match_is_in_range(events, t, pos as int, window_end as int, q, false);
                        assert(is_call(events[t[pos as int] as int], q) == is_call(
                            events[t[pos as int] as int],
                            q,
                        ));
                    }
                    let next = &self.all_events[order[pos]];
                    if Self::method_matches(next, boundary, trait_name, method_name)
                        && next.args.equals(args) {
                        (Some(order[pos]), MatchOutcome::Exact(pos))
                    } else if let Some(i) = self.scan(
                        order,
                        pos,
                        window_end,
                        boundary,
                        trait_name,
                        method_name,
                        args,
                        true,
                    ) {
                        (Some(order[i]), MatchOutcome::RecoveredSkip(i))
                    } else if let Some(i) = self.scan(
                        order,
                        pos,
                        window_end,
                        boundary,
                        trait_name,
                        method_name,
                        args,
                        false,
                    ) {
                        if self.config.arg_mismatch_policy.allow_arg_mismatch(args) {
                            (Some(order[i]), MatchOutcome::RecoveredWithMismatch(i))
                        } else {
                            (Some(order[i]), MatchOutcome::ArgSkipBlocked(i))
                        }
                    } else {
                        (None, MatchOutcome::Novel)
                    }
                }
            },
        };
        proof {
            assert(outcome == matching(events, t, pos as int, self.config, q));
        }
        match outcome {
            MatchOutcome::Exact(i) => self.move_to(correlation_id, i + 1),
            MatchOutcome::RecoveredSkip(i) => self.move_to(correlation_id, i + 1),
            MatchOutcome::RecoveredWithMismatch(i) => self.move_to(correlation_id, i + 1),
            MatchOutcome::ArgSkipBlocked(_) => (),
            MatchOutcome::Novel => (),
        }
        proof {
            assert forall|k: CallsiteKeyView| #[trigger] self.occurrence(k) == old(self).occurrence(
                k,
            ) by {}
        }
        (at, outcome)
    }

    /// What a call does that is looked up by what it is.
    pub open spec fn next_turn(self, correlation_id: Option<Seq<char>>, q: CallQuery) -> Turn {
        let t = self.tape(correlation_id);
        let position = self.position(correlation_id);
        turn(
            self.events(),
            t,
            position,
            self.report(),
            q,
            matching(self.events(), t, position, self.config(), q),
        )
    }

    /// What a call does that is looked up by the identity of its site alone.
    pub open spec fn next_identity_turn(
        self,
        correlation_id: Option<Seq<char>>,
        identity: CallsiteIdentity,
        args: JsonView,
    ) -> Turn {
        identity_turn(
            self.events(),
            self.tape(correlation_id),
            self.position(correlation_id),
            self.config(),
            self.report(),
            identity,
            args,
        )
    }

    /// What a call does: by the identity of its site where that is stable and
    /// gives a result, else by what it is.
    pub open spec fn next_context_turn(
        self,
        correlation_id: Option<Seq<char>>,
        query: ReplayLookup<'_>,
    ) -> Turn {
        let q = query_of(query.boundary@, query.trait_name@, query.method_name@, query.args@);
        match query.callsite_identity {
            Some(identity) => if is_stable(*identity) {
                let first = self.next_identity_turn(correlation_id, *identity, query.args@);
                if first.result is Some {
                    first
                } else {
                    turn(
                        self.events(),
                        self.tape(correlation_id),
                        self.position(correlation_id),
                        first.report,
                        q,
                        matching(
                            self.events(),
                            self.tape(correlation_id),
                            self.position(correlation_id),
                            self.config(),
                            q,
                        ),
                    )
                }
            } else {
                self.next_turn(correlation_id, q)
            },
            None => self.next_turn(correlation_id, q),
        }
    }

    fn push_divergence(
        &mut self,
        kind: DivergenceKind,
        boundary: &str,
        trait_name: &str,
        method_name: &str,
        detail: String,
        baseline: Option<Json>,
        candidate: Option<Json>,
        global_sequence: u64,
    )
        requires
            old(self).report().divergence_count < u64::MAX,
        ensures
            *final(self) == (ReplayHook { report: final(self).report, ..*old(self) }),
            final(self).report() == old(self).report().diverged(
                DivergenceView {
                    kind: kind@,
                    boundary: boundary@,
                    trait_name: trait_name@,
                    method_name: method_name@,
                    detail: detail@,
                    baseline: baseline.deep_view(),
                    candidate: candidate.deep_view(),
                    global_sequence,
                },
            ),
    {
        self.report.push(
            Divergence {
                kind,
                boundary: boundary.to_owned(),
                trait_name: trait_name.to_owned(),
                method_name: method_name.to_owned(),
                detail,
                baseline,
                candidate,
                global_sequence,
            },
        );
    }

    /// Looks a call up on the tape of its correlation. The divergences on the
    /// way go into the report.
    pub fn try_replay(
        &mut self,
        boundary: &str,
        trait_name: &str,
        method_name: &str,
        args: &Json,
        ambient: &Ambient,
    ) -> (r: Option<Json>)
        requires
            old(self).wf(),
            old(self).report().has_room(1),
        ensures
            ({
                let c = ambient.correlation_id.deep_view();
                let done = old(self).next_turn(
                    c,
                    query_of(boundary@, trait_name@, method_name@, args@),
                );
                &&& r.deep_view() == done.result
                &&& final(self).moved_on(*old(self), c, done)
            }),
    {
        let ghost c = ambient.correlation_id.deep_view();
        let ghost q = query_of(boundary@, trait_name@, method_name@, args@);
        let ghost start = *self;
        let correlation_id = opt_str(&ambient.correlation_id);
        let pos = self.position_of(correlation_id);
        let (at, outcome) = self.find_match(boundary, trait_name, method_name, args, correlation_id);
        let ghost mid = *self;
        let result = match (at, outcome) {
            (Some(e), MatchOutcome::Exact(_)) => {
                self.report.count_match();
                Some(self.all_events[e].result.clone())
            },
            (Some(e), MatchOutcome::RecoveredSkip(i)) => {
                let skipped = decimal_text((i - pos) as u64);
                let detail = joined(
                    joined("skipped ", skipped.as_str()).as_str(),
                    " recorded call(s) to recover",
                );
                let global_sequence = self.all_events[e].global_sequence;
                self.push_divergence(
                    DivergenceKind::OmittedCall,
                    boundary,
                    trait_name,
                    method_name,
                    detail,
                    None,
                    None,
                    global_sequence,
                );
                self.report.count_match();
                Some(self.all_events[e].result.clone())
            },
            (Some(e), MatchOutcome::RecoveredWithMismatch(i)) => {
                let skipped = decimal_text((i - pos) as u64);
                let detail = joined(
                    joined("args differed; skipped ", skipped.as_str()).as_str(),
                    " call(s) and returned recorded result anyway",
                );
                let global_sequence = self.all_events[e].global_sequence;
                let recorded_args = self.all_events[e].args.clone();
                self.push_divergence(
                    DivergenceKind::ArgsDiverged,
                    boundary,
                    trait_name,
                    method_name,
                    detail,
                    Some(recorded_args),
                    Some(args.clone()),
                    global_sequence,
                );
                self.report.count_match();
                Some(self.all_events[e].result.clone())
            },
            (Some(e), MatchOutcome::ArgSkipBlocked(_)) => {
                let recorded_args = self.all_events[e].args.clone();
                self.push_divergence(
                    DivergenceKind::ArgSkipBlocked,
                    boundary,
                    trait_name,
                    method_name,
                    "arg mismatch fallback blocked".to_owned(),
                    Some(recorded_args),
                    Some(args.clone()),
                    0,
                );
                None
            },
            _ => {
                self.push_divergence(
                    DivergenceKind::NovelCall,
                    boundary,
                    trait_name,
                    method_name,
                    "call not found in recording — falling through to real implementation".to_owned(),
                    None,
                    Some(args.clone()),
                    0,
                );
                None
            },
        };
        proof {
            self.kept_but_the_report(mid);
            assert(mid.wf() ==> self.wf());
        }
        result
    }

    proof fn kept_but_the_report(self, before: ReplayHook)
        requires
            self == (ReplayHook { report: self.report, ..before }),
        ensures
            before.wf() && self.report().counts_its_divergences() ==> self.wf(),
            self.events() == before.events(),
            self.config() == before.config(),
            self.upcoming_sequence() == before.upcoming_sequence(),
            forall|key: CallsiteKeyView| #[trigger] self.occurrence(key) == before.occurrence(key),
            forall|c: Option<Seq<char>>| #[trigger] self.position(c) == before.position(c),
    {
        assert forall|c: Option<Seq<char>>| #[trigger] self.position(c) == before.position(c) by {}
        assert forall|c: Option<Seq<char>>|
            before.wf() implies 0 <= #[trigger] self.position(c) <= tape(self.all_events@, c).len() by {
            assert(before.position(c) == self.position(c));
        }
    }

    /// Looks a call up by the identity of its site, however far ahead it is.
    #[verifier::loop_isolation(false)]
    pub fn lookup_by_identity(
        &mut self,
        identity: &CallsiteIdentity,
        args: &Json,
        ambient: &Ambient,
    ) -> (r: Option<Json>)
        requires
            old(self).wf(),
            old(self).report().has_room(1),
        ensures
            ({
                let c = ambient.correlation_id.deep_view();
                let done = old(self).next_identity_turn(c, *identity, args@);
                identity.id is Some ==> {
                    &&& r.deep_view() == done.result
                    &&& final(self).moved_on(*old(self), c, done)
                }
            }),
            identity.id is None ==> r is None && *final(self) == *old(self),
    {
        if identity.id.is_none() {
            return None;
        }
        let ghost c = ambient.correlation_id.deep_view();
        let ghost events = self.all_events@;
        let ghost t = tape(events, c);
        let ghost start = *self;
        let correlation_id = opt_str(&ambient.correlation_id);
        self.cursor_for(correlation_id);
        let pos = self.position_of(correlation_id);
        proof {
            tape_is_in_range(events, c);
            assert(0 <= self.position(c) <= t.len());
            first_identity_is_in_range(events, t, pos as int, *identity);
        }
        let key = CorrelationKey { correlation_id: opt_string(correlation_id) };
        let mut found: Option<(usize, usize)> = None;
        if let Some(order) = self.tapes.get(&key) {
            proof {
                assert(order@ == t);
            }
            let mut i: usize = pos;
            while i < order.len() && found.is_none()
                invariant
                    pos <= i <= order@.len(),
                    found is None ==> first_identity(events, t, pos as int, *identity)
                        == first_identity(events, t, i as int, *identity),
                    found matches Some((at, e)) ==> first_identity(events, t, pos as int, *identity)
                        == Some(at as int) && at < t.len() && e == t[at as int],
                decreases order@.len() - i,
            {
                let recorded = &self.all_events[order[i]].callsite_identity;
                let same = match recorded {
                    Some(recorded) => recorded.source == identity.source && opt_text_eq(
                        opt_str(&recorded.id),
                        opt_str(&identity.id),
                    ) && recorded.occurrence == identity.occurrence,
                    None => false,
                };
                if same {
                    found = Some((i, order[i]));
                }
                i = i + 1;
            }
        }
        let ghost mid = *self;
        let result = match found {
            None => None,
            Some((i, e)) => {
                let boundary = self.all_events[e].boundary.clone();
                let trait_name = self.all_events[e].trait_name.clone();
                let method_name = self.all_events[e].method_name.clone();
                let recorded_args = self.all_events[e].args.clone();
                let global_sequence = self.all_events[e].global_sequence;
                if self.all_events[e].args.equals(args) {
                    self.move_to(correlation_id, i + 1);
                    self.report.count_match();
                    Some(self.all_events[e].result.clone())
                } else if self.config.arg_mismatch_policy.allow_arg_mismatch(args) {
                    self.move_to(correlation_id, i + 1);
                    self.push_divergence(
                        DivergenceKind::ArgsDiverged,
                        boundary.as_str(),
                        trait_name.as_str(),
                        method_name.as_str(),
                        "args differed; returned identity-matched recorded result anyway".to_owned(),
                        Some(recorded_args),
                        Some(args.clone()),
                        global_sequence,
                    );
                    self.report.count_match();
                    Some(self.all_events[e].result.clone())
                } else {
                    self.push_divergence(
                        DivergenceKind::ArgSkipBlocked,
                        boundary.as_str(),
                        trait_name.as_str(),
                        method_name.as_str(),
                        "arg mismatch fallback blocked".to_owned(),
                        Some(recorded_args),
                        Some(args.clone()),
                        global_sequence,
                    );
                    None
                }
            },
        };
        proof {
            let ghost moved = ReplayHook { report: mid.report, ..*self };
            self.kept_but_the_report(moved);
            assert forall|k: CallsiteKeyView| #[trigger] self.occurrence(k) == start.occurrence(
                k,
            ) by {}
            assert forall|x: Option<Seq<char>>| x != c implies #[trigger] self.position(x)
                == start.position(x) by {
                assert(mid.position(x) == start.position(x));
                assert(moved.position(x) == mid.position(x));
            }
            assert(mid.position(c) == start.position(c));
        }
        result
    }

    /// Looks a call up, by the identity of its site first where that is stable.
    pub fn try_replay_with_context(&mut self, query: ReplayLookup<'_>, ambient: &Ambient) -> (r:
        Option<Json>)
        requires
            old(self).wf(),
            old(self).report().has_room(2),
        ensures
            ({
                let c = ambient.correlation_id.deep_view();
                let done = old(self).next_context_turn(c, query);
                &&& r.deep_view() == done.result
                &&& final(self).moved_on(*old(self), c, done)
            }),
    {
        let ghost c = ambient.correlation_id.deep_view();
        if let Some(identity) = query.callsite_identity {
            let stable_source = matches!(
                identity.source,
                CallsiteSource::Explicit | CallsiteSource::SyntacticHash | CallsiteSource::LexicalPath
            );
            if stable_source && identity.id.is_some() {
                let found = self.lookup_by_identity(identity, query.args, ambient);
                if found.is_some() {
                    return found;
                }
                proof {
                    assert(self.position(c) == old(self).position(c));
                }
            }
        }
        self.try_replay(query.boundary, query.trait_name, query.method_name, query.args, ambient)
    }

    /// Counts a call of the program that replays.
    pub fn record(&mut self, event: BoundaryEvent)
        requires
            old(self).wf(),
            old(self).report().total_calls < u64::MAX,
        ensures
            final(self).wf(),
            final(self).events() == old(self).events(),
            final(self).config() == old(self).config(),
            final(self).upcoming_sequence() == old(self).upcoming_sequence(),
            forall|key: CallsiteKeyView| #[trigger]
                final(self).occurrence(key) == old(self).occurrence(key),
            forall|c: Option<Seq<char>>| #[trigger] final(self).position(c) == old(self).position(c),
            final(self).report() == (ReplayReportView {
                total_calls: (old(self).report().total_calls + 1) as u64,
                ..old(self).report()
            }),
    {
        let ghost before = *self;
        self.report.total_calls = self.report.total_calls + 1;
        proof {
            self.kept_but_the_report(before);
        }
    }

    /// The next position among all events.
    pub fn next_global_sequence(&mut self) -> (r: u64)
        requires
            old(self).wf(),
            old(self).upcoming_sequence() < u64::MAX,
        ensures
            r == old(self).upcoming_sequence(),
            final(self).upcoming_sequence() == r + 1,
            final(self).wf(),
            final(self).events() == old(self).events(),
            final(self).config() == old(self).config(),
            final(self).report() == old(self).report(),
            forall|key: CallsiteKeyView| #[trigger]
                final(self).occurrence(key) == old(self).occurrence(key),
            forall|c: Option<Seq<char>>| #[trigger] final(self).position(c) == old(self).position(c),
    {
        let ghost before = *self;
        let current = self.global_seq;
        self.global_seq = current + 1;
        proof {
            assert forall|c: Option<Seq<char>>|
                0 <= #[trigger] self.position(c) <= tape(self.all_events@, c).len() by {
                assert(before.position(c) == self.position(c));
            }
        }
        current
    }

    /// Where on its tape a correlation is.
    pub fn next_request_sequence(&self, correlation_id: Option<&str>) -> (r: u64)
        ensures
            r == self.position(correlation_id.deep_view()),
    {
        self.position_of(correlation_id) as u64
    }

    /// The occurrence of a call at its site: one more with each call in the
    /// same correlation, lineage bucket, source and scope.
    pub fn next_callsite_occurrence(
        &mut self,
        correlation_id: Option<&str>,
        source: CallsiteSource,
        scope: Option<&str>,
        ambient: &Ambient,
    ) -> (r: u32)
        requires
            old(self).wf(),
            old(self).occurrence(
                site(correlation_id.deep_view(), *ambient, source, scope.deep_view()),
            ) < u32::MAX,
        ensures
            ({
                let key = site(correlation_id.deep_view(), *ambient, source, scope.deep_view());
                &&& r == old(self).occurrence(key)
                &&& final(self).occurrence(key) == r + 1
                &&& forall|k: CallsiteKeyView|
                    k != key ==> #[trigger] final(self).occurrence(k) == old(self).occurrence(k)
            }),
            final(self).wf(),
            final(self).events() == old(self).events(),
            final(self).config() == old(self).config(),
            final(self).report() == old(self).report(),
            final(self).upcoming_sequence() == old(self).upcoming_sequence(),
            forall|c: Option<Seq<char>>| #[trigger] final(self).position(c) == old(self).position(c),
    {
        let lineage = ambient.task_lineage();
        let ghost key = site(correlation_id.deep_view(), *ambient, source, scope.deep_view());
        let ghost before = *self;
        let number = self.callsite_occurrence.take_number(
            CallsiteKey {
                correlation_id: opt_string(correlation_id),
                bucket_id: Some(lineage.bucket_id),
                source,
                scope: opt_string(scope),
            },
            0,
        );
        proof {
            assert forall|k: CallsiteKeyView| k != key implies #[trigger] self.occurrence(k)
                == before.occurrence(k) by {
                assert(self.callsite_occurrence.at(k) == before.callsite_occurrence.at(k));
            }
            assert forall|c: Option<Seq<char>>|
                0 <= #[trigger] self.position(c) <= tape(self.all_events@, c).len() by {
                assert(before.position(c) == self.position(c));
            }
        }
        number as u32
    }
}

/// A call, as it is matched.
pub open spec fn query_of(
    boundary: Seq<char>,
    trait_name: Seq<char>,
    method_name: Seq<char>,
    args: JsonView,
) -> CallQuery {
    CallQuery { boundary, trait_name, method_name, args }
}

/// A call that repeats the next event of its tape is given that event's result,
/// and nothing diverges.
pub proof fn faithful_calls_match(hook: ReplayHook, correlation_id: Option<Seq<char>>, q: CallQuery)
    requires
        0 <= hook.position(correlation_id) < hook.tape(correlation_id).len(),
        hook.tape(correlation_id).len() <= usize::MAX,
        is_exact(
            hook.events()[hook.tape(correlation_id)[hook.position(correlation_id)] as int],
            q,
        ),
    ensures
        ({
            let position = hook.position(correlation_id);
            let done = hook.next_turn(correlation_id, q);
            &&& done.result == Some(
                hook.events()[hook.tape(correlation_id)[position] as int].result@,
            )
            &&& done.position == position + 1
            &&& done.report == hook.report().matched()
        }),
{
}

proof fn first_match_matches(
    events: Seq<BoundaryEvent>,
    t: Seq<usize>,
    from: int,
    to: int,
    q: CallQuery,
    exact: bool,
)
    ensures
        first_match(events, t, from, to, q, exact) matches Some(i) ==> from <= i < to && is_call(
            events[t[i] as int],
            q,
        ) && (exact ==> is_exact(events[t[i] as int], q)),
    decreases to - from,
{
    if from < to {
        first_match_matches(events, t, from + 1, to, q, exact);
    }
}

/// Where the policy forbids it, no call is given a result that was recorded for
/// other arguments: what it is given stands on its tape, from its position on,
/// for the same method and the same arguments. A call that is given nothing
/// leaves its tape where it was.
pub proof fn results_are_not_borrowed(
    hook: ReplayHook,
    correlation_id: Option<Seq<char>>,
    q: CallQuery,
)
    requires
        !hook.config().arg_mismatch_policy.allows(q.args),
        0 <= hook.position(correlation_id),
        hook.tape(correlation_id).len() <= usize::MAX,
    ensures
        ({
            let t = hook.tape(correlation_id);
            let position = hook.position(correlation_id);
            let done = hook.next_turn(correlation_id, q);
            &&& done.result is None ==> done.position == position
            &&& done.result is Some ==> {
                let i = done.position - 1;
                &&& position <= i < t.len()
                &&& is_exact(hook.events()[t[i] as int], q)
                &&& done.result == Some(hook.events()[t[i] as int].result@)
            }
        }),
{
    let t = hook.tape(correlation_id);
    let position = hook.position(correlation_id);
    let end = if position + hook.config().sliding_window_size < t.len() {
        position + hook.config().sliding_window_size
    } else {
        t.len() as int
    };
    first_match_matches(hook.events(), t, position, end, q, true);
    first_match_matches(hook.events(), t, position, end, q, false);
}

proof fn first_identity_is_the_first(
    events: Seq<BoundaryEvent>,
    t: Seq<usize>,
    from: int,
    identity: CallsiteIdentity,
)
    ensures
        match first_identity(events, t, from, identity) {
            Some(i) => from <= i < t.len() && has_identity(events[t[i] as int], identity)
                && forall|h: int|
                    from <= h < i ==> !has_identity(events[#[trigger] t[h] as int], identity),
            None => forall|h: int|
                from <= h < t.len() ==> !has_identity(events[#[trigger] t[h] as int], identity),
        },
    decreases t.len() - from,
{
    if from < t.len() {
        first_identity_is_the_first(events, t, from + 1, identity);
    }
}

/// What a lookup by the identity of a site gives is the result of an event on
/// the tape of the correlation, at its position or behind it, that was recorded
/// at the same site: the same source, the same id and the same occurrence. It is
/// the first such event, and its arguments are those of the call unless the
/// policy allows others. The tape is left behind that event; a lookup that gives
/// nothing leaves it where it was.
pub proof fn identity_results_are_of_the_site(
    hook: ReplayHook,
    correlation_id: Option<Seq<char>>,
    identity: CallsiteIdentity,
    args: JsonView,
)
    ensures
        ({
            let t = hook.tape(correlation_id);
            let position = hook.position(correlation_id);
            let done = hook.next_identity_turn(correlation_id, identity, args);
            &&& done.result is None ==> done.position == position
            &&& done.result matches Some(r) ==> {
                let i = done.position - 1;
                let e = hook.events()[t[i] as int];
                &&& position <= i < t.len()
                &&& r == e.result@
                &&& e.callsite_identity matches Some(recorded) && recorded.source
                    == identity.source && recorded.id.deep_view() == identity.id.deep_view()
                    && recorded.occurrence == identity.occurrence
                &&& json_eq(e.args@, args) || hook.config().arg_mismatch_policy.allows(args)
                &&& forall|h: int|
                    position <= h < i ==> !(hook.events()[#[trigger] t[h] as int].callsite_identity
                        matches Some(recorded) && recorded.source == identity.source
                        && recorded.id.deep_view() == identity.id.deep_view()
                        && recorded.occurrence == identity.occurrence)
            }
        }),
{
    first_identity_is_the_first(
        hook.events(),
        hook.tape(correlation_id),
        hook.position(correlation_id),
        identity,
    );
}

/// An event that was recorded at the site of a call, at the position of the tape
/// or behind it, with the arguments of the call, is found if it is the first of
/// that site: the call is given its result, is counted as matched, and leaves the
/// tape behind the event.
pub proof fn recorded_sites_are_found(
    hook: ReplayHook,
    correlation_id: Option<Seq<char>>,
    identity: CallsiteIdentity,
    args: JsonView,
    i: int,
)
    requires
        hook.position(correlation_id) <= i < hook.tape(correlation_id).len(),
        ({
            let e = hook.events()[hook.tape(correlation_id)[i] as int];
            &&& json_eq(e.args@, args)
            &&& e.callsite_identity matches Some(recorded) && recorded.source == identity.source
                && recorded.id.deep_view() == identity.id.deep_view() && recorded.occurrence
                == identity.occurrence
        }),
        forall|h: int|
            hook.position(correlation_id) <= h < i ==> !(
            hook.events()[#[trigger] hook.tape(correlation_id)[h] as int].callsite_identity matches Some(
                recorded,
            ) && recorded.source == identity.source && recorded.id.deep_view()
                == identity.id.deep_view() && recorded.occurrence == identity.occurrence),
    ensures
        ({
            let done = hook.next_identity_turn(correlation_id, identity, args);
            &&& done.result == Some(
                hook.events()[hook.tape(correlation_id)[i] as int].result@,
            )
            &&& done.position == i + 1
            &&& done.report == hook.report().matched()
        }),
{
    let t = hook.tape(correlation_id);
    let position = hook.position(correlation_id);
    first_identity_is_the_first(hook.events(), t, position, identity);
    assert(has_identity(hook.events()[t[i] as int], identity));
    let found = first_identity(hook.events(), t, position, identity);
    assert(found is Some);
    if found->0 < i {
        assert(has_identity(hook.events()[t[found->0] as int], identity));
    }
}

/// A lookup by the identity of a site at which nothing was recorded, from the
/// position of the tape on, gives nothing and reports nothing.
pub proof fn unrecorded_sites_are_not_found(
    hook: ReplayHook,
    correlation_id: Option<Seq<char>>,
    identity: CallsiteIdentity,
    args: JsonView,
)
    requires
        forall|h: int|
            hook.position(correlation_id) <= h < hook.tape(correlation_id).len() ==> !(
            hook.events()[#[trigger] hook.tape(correlation_id)[h] as int].callsite_identity matches Some(
                recorded,
            ) && recorded.source == identity.source && recorded.id.deep_view()
                == identity.id.deep_view() && recorded.occurrence == identity.occurrence),
    ensures
        ({
            let done = hook.next_identity_turn(correlation_id, identity, args);
            &&& done.result is None
            &&& done.position == hook.position(correlation_id)
            &&& done.report == hook.report()
        }),
{
    let t = hook.tape(correlation_id);
    let position = hook.position(correlation_id);
    first_identity_is_the_first(hook.events(), t, position, identity);
    let found = first_identity(hook.events(), t, position, identity);
    if found is Some {
        assert(has_identity(hook.events()[t[found->0] as int], identity));
    }
}

proof fn first_match_is_the_first(
    events: Seq<BoundaryEvent>,
    t: Seq<usize>,
    from: int,
    to: int,
    q: CallQuery,
    exact: bool,
)
    ensures
        match first_match(events, t, from, to, q, exact) {
            Some(i) => from <= i < to && is_call(events[t[i] as int], q) && (exact ==> is_exact(
                events[t[i] as int],
                q,
            )) && forall|h: int|
                from <= h < i ==> !is_exact(events[#[trigger] t[h] as int], q) && (!exact
                    ==> !is_call(events[t[h] as int], q)),
            None => forall|h: int|
                from <= h < to ==> !is_exact(events[#[trigger] t[h] as int], q) && (!exact
                    ==> !is_call(events[t[h] as int], q)),
        },
    decreases to - from,
{
    if from < to {
        first_match_is_the_first(events, t, from + 1, to, q, exact);
    }
}

/// What a call is given, under any policy, was recorded for the same boundary,
/// trait and method, on the tape of the correlation, at its position or in the
/// window behind it, with the same arguments unless the policy allows others. The
/// tape is left behind that event; a call that is given nothing leaves it where
/// it was.
pub proof fn results_are_of_the_method(
    hook: ReplayHook,
    correlation_id: Option<Seq<char>>,
    q: CallQuery,
)
    requires
        0 <= hook.position(correlation_id),
        hook.tape(correlation_id).len() <= usize::MAX,
    ensures
        ({
            let t = hook.tape(correlation_id);
            let position = hook.position(correlation_id);
            let done = hook.next_turn(correlation_id, q);
            &&& done.result is None ==> done.position == position
            &&& done.result matches Some(r) ==> {
                let i = done.position - 1;
                let e = hook.events()[t[i] as int];
                &&& position <= i < t.len()
                &&& i == position || i < position + hook.config().sliding_window_size
                &&& r == e.result@
                &&& e.boundary@ == q.boundary
                &&& e.trait_name@ == q.trait_name
                &&& e.method_name@ == q.method_name
                &&& json_eq(e.args@, q.args) || hook.config().arg_mismatch_policy.allows(q.args)
            }
        }),
{
    let t = hook.tape(correlation_id);
    let position = hook.position(correlation_id);
    let end = if position + hook.config().sliding_window_size < t.len() {
        position + hook.config().sliding_window_size
    } else {
        t.len() as int
    };
    first_match_is_the_first(hook.events(), t, position, end, q, true);
    first_match_is_the_first(hook.events(), t, position, end, q, false);
}

/// A call that was recorded, at the position of its tape or in the window behind
/// it, is given the result of the first event that was recorded for it, whatever
/// else stands in between; and only where something does is a divergence
/// reported.
pub proof fn calls_in_the_window_are_found(
    hook: ReplayHook,
    correlation_id: Option<Seq<char>>,
    q: CallQuery,
    i: int,
)
    requires
        0 <= hook.position(correlation_id) <= i < hook.tape(correlation_id).len(),
        hook.tape(correlation_id).len() <= usize::MAX,
        i == hook.position(correlation_id) || i < hook.position(correlation_id)
            + hook.config().sliding_window_size,
        ({
            let e = hook.events()[hook.tape(correlation_id)[i] as int];
            &&& e.boundary@ == q.boundary
            &&& e.trait_name@ == q.trait_name
            &&& e.method_name@ == q.method_name
            &&& json_eq(e.args@, q.args)
        }),
        forall|h: int|
            hook.position(correlation_id) <= h < i ==> {
                let e = hook.events()[#[trigger] hook.tape(correlation_id)[h] as int];
                !(e.boundary@ == q.boundary && e.trait_name@ == q.trait_name && e.method_name@
                    == q.method_name && json_eq(e.args@, q.args))
            },
    ensures
        ({
            let done = hook.next_turn(correlation_id, q);
            &&& done.result == Some(
                hook.events()[hook.tape(correlation_id)[i] as int].result@,
            )
            &&& done.position == i + 1
            &&& done.report.divergences.len() == hook.report().divergences.len() + (if i
                == hook.position(correlation_id) {
                0int
            } else {
                1int
            })
        }),
{
    let t = hook.tape(correlation_id);
    let position = hook.position(correlation_id);
    let end = if position + hook.config().sliding_window_size < t.len() {
        position + hook.config().sliding_window_size
    } else {
        t.len() as int
    };
    first_match_is_the_first(hook.events(), t, position, end, q, true);
    assert(is_exact(hook.events()[t[i] as int], q));
    if i > position {
        assert(!is_exact(hook.events()[t[position] as int], q));
        let found = first_match(hook.events(), t, position, end, q, true);
        assert(found is Some);
        if found->0 < i {
            assert(is_exact(hook.events()[t[found->0] as int], q));
        }
    }
}

/// Where the window holds the method of a call but not its arguments, the first
/// event of the method answers it if the policy allows that, and nothing does if
/// the policy forbids it; and a method that the window does not hold is answered
/// by nothing, whatever the policy.
pub proof fn other_arguments_are_given_by_policy(
    hook: ReplayHook,
    correlation_id: Option<Seq<char>>,
    q: CallQuery,
)
    requires
        0 <= hook.position(correlation_id) <= hook.tape(correlation_id).len(),
        hook.tape(correlation_id).len() <= usize::MAX,
        forall|h: int|
            hook.position(correlation_id) <= h < hook.tape(correlation_id).len() && (h
                == hook.position(correlation_id) || h < hook.position(correlation_id)
                + hook.config().sliding_window_size) ==> {
                let e = hook.events()[#[trigger] hook.tape(correlation_id)[h] as int];
                !(e.boundary@ == q.boundary && e.trait_name@ == q.trait_name && e.method_name@
                    == q.method_name && json_eq(e.args@, q.args))
            },
    ensures
        ({
            let t = hook.tape(correlation_id);
            let position = hook.position(correlation_id);
            let done = hook.next_turn(correlation_id, q);
            &&& !hook.config().arg_mismatch_policy.allows(q.args) ==> done.result is None
            &&& forall|i: int|
                position <= i < t.len() && i < position + hook.config().sliding_window_size && ({
                    let e = hook.events()[#[trigger] t[i] as int];
                    e.boundary@ == q.boundary && e.trait_name@ == q.trait_name && e.method_name@
                        == q.method_name
                }) && (forall|h: int|
                    position <= h < i ==> {
                        let e = hook.events()[#[trigger] t[h] as int];
                        !(e.boundary@ == q.boundary && e.trait_name@ == q.trait_name
                            && e.method_name@ == q.method_name)
                    }) && hook.config().arg_mismatch_policy.allows(q.args) ==> done.result == Some(
                    hook.events()[t[i] as int].result@,
                ) && done.position == i + 1
            &&& (forall|h: int|
                position <= h < t.len() && h < position + hook.config().sliding_window_size ==> {
                    let e = hook.events()[#[trigger] t[h] as int];
                    !(e.boundary@ == q.boundary && e.trait_name@ == q.trait_name && e.method_name@
                        == q.method_name)
                }) ==> done.result is None
        }),
{
    let t = hook.tape(correlation_id);
    let position = hook.position(correlation_id);
    let end = if position + hook.config().sliding_window_size < t.len() {
        position + hook.config().sliding_window_size
    } else {
        t.len() as int
    };
    let done = hook.next_turn(correlation_id, q);
    first_match_is_the_first(hook.events(), t, position, end, q, true);
    first_match_is_the_first(hook.events(), t, position, end, q, false);
    let exact = first_match(hook.events(), t, position, end, q, true);
    let near = first_match(hook.events(), t, position, end, q, false);
    if position < t.len() {
        assert(!is_exact(hook.events()[t[position] as int], q));
    }
    if exact is Some {
        assert(is_exact(hook.events()[t[exact->0] as int], q));
    }
    assert forall|i: int|
        position <= i < t.len() && i < position + hook.config().sliding_window_size && ({
            let e = hook.events()[#[trigger] t[i] as int];
            e.boundary@ == q.boundary && e.trait_name@ == q.trait_name && e.method_name@
                == q.method_name
        }) && (forall|h: int|
            position <= h < i ==> {
                let e = hook.events()[#[trigger] t[h] as int];
                !(e.boundary@ == q.boundary && e.trait_name@ == q.trait_name && e.method_name@
                    == q.method_name)
            }) && hook.config().arg_mismatch_policy.allows(q.args) implies done.result == Some(
        hook.events()[t[i] as int].result@,
    ) && done.position == i + 1 by {
        assert(is_call(hook.events()[t[i] as int], q));
        assert(near is Some);
        if near->0 < i {
            assert(is_call(hook.events()[t[near->0] as int], q));
        }
    }
    if forall|h: int|
        position <= h < t.len() && h < position + hook.config().sliding_window_size ==> {
            let e = hook.events()[#[trigger] t[h] as int];
            !(e.boundary@ == q.boundary && e.trait_name@ == q.trait_name && e.method_name@
                == q.method_name)
        } {
        if near is Some {
            assert(is_call(hook.events()[t[near->0] as int], q));
        }
    }
}

/// A call without arguments is never given what was recorded for other
/// arguments, unless the policy is to always give.
pub proof fn argless_calls_do_not_borrow(config: ReplayConfig, args: JsonView)
    requires
        argless(args),
        !(config.arg_mismatch_policy is Always),
    ensures
        !config.arg_mismatch_policy.allows(args),
{
}

/// No call moves a tape back.
pub proof fn tapes_only_move_on(hook: ReplayHook, correlation_id: Option<Seq<char>>, q: CallQuery)
    requires
        0 <= hook.position(correlation_id),
        hook.tape(correlation_id).len() <= usize::MAX,
    ensures
        hook.next_turn(correlation_id, q).position >= hook.position(correlation_id),
{
    let t = hook.tape(correlation_id);
    let position = hook.position(correlation_id);
    let end = if position + hook.config().sliding_window_size < t.len() {
        position + hook.config().sliding_window_size
    } else {
        t.len() as int
    };
    first_match_matches(hook.events(), t, position, end, q, true);
    first_match_matches(hook.events(), t, position, end, q, false);
}

/// Every call is reported: one that is given a result is counted as matched, and
/// adds a divergence only where recorded calls were skipped or its arguments
/// differ; one that is given nothing is not, and adds one divergence. At all
/// times the report counts as many divergences as it holds.
pub proof fn calls_are_reported(hook: ReplayHook, correlation_id: Option<Seq<char>>, q: CallQuery)
    requires
        hook.wf(),
        hook.report().has_room(1),
    ensures
        hook.report().counts_its_divergences(),
        ({
            let before = hook.report();
            let done = hook.next_turn(correlation_id, q);
            let after = done.report;
            &&& after.counts_its_divergences()
            &&& after.total_calls == before.total_calls
            &&& after.matched_calls == before.matched_calls + (if done.result is Some {
                1int
            } else {
                0int
            })
            &&& match reported_kind(
                matching(
                    hook.events(),
                    hook.tape(correlation_id),
                    hook.position(correlation_id),
                    hook.config(),
                    q,
                ),
            ) {
                None => done.result is Some && after.divergences == before.divergences,
                Some(kind) => {
                    &&& (done.result is Some) == (kind is OmittedCall || kind is ArgsDiverged)
                    &&& (done.result is None) == (kind is NovelCall || kind is ArgSkipBlocked)
                    &&& after.divergences.len() == before.divergences.len() + 1
                    &&& after.divergences.drop_last() == before.divergences
                    &&& after.divergences.last().kind == kind
                },
            }
        }),
{
    let before = hook.report();
    let after = hook.next_turn(correlation_id, q).report;
    if after.divergences.len() > before.divergences.len() {
        assert(after.divergences.drop_last() =~= before.divergences);
    }
}

/// What is reported of a call, by how it was matched.
pub open spec fn reported_kind(outcome: MatchOutcome) -> Option<DivergenceKindView> {
    match outcome {
        MatchOutcome::Exact(_) => None,
        MatchOutcome::RecoveredSkip(_) => Some(DivergenceKindView::OmittedCall),
        MatchOutcome::RecoveredWithMismatch(_) => Some(DivergenceKindView::ArgsDiverged),
        MatchOutcome::ArgSkipBlocked(_) => Some(DivergenceKindView::ArgSkipBlocked),
        MatchOutcome::Novel => Some(DivergenceKindView::NovelCall),
    }
}

/// An identity holds where lines shift if it has an id and was written down, is a
/// hash of the syntax or a lexical path. A call at such a site is given what the
/// site gives; where the site gives nothing, and at any other site, it is looked up
/// by what it is.
pub proof fn stable_sites_are_asked_first(
    hook: ReplayHook,
    correlation_id: Option<Seq<char>>,
    query: ReplayLookup<'_>,
)
    requires
        0 <= hook.position(correlation_id),
        hook.tape(correlation_id).len() <= usize::MAX,
    ensures
        ({
            let done = hook.next_context_turn(correlation_id, query);
            let q = CallQuery {
                boundary: query.boundary@,
                trait_name: query.trait_name@,
                method_name: query.method_name@,
                args: query.args@,
            };
            let plain = hook.next_turn(correlation_id, q);
            &&& query.callsite_identity is None ==> done == plain
            &&& query.callsite_identity matches Some(identity) ==> {
                let stable = identity.id is Some && (identity.source is Explicit
                    || identity.source is SyntacticHash || identity.source is LexicalPath);
                let by_site = hook.next_identity_turn(correlation_id, *identity, query.args@);
                &&& !stable ==> done == plain
                &&& stable && by_site.result is Some ==> done == by_site
                &&& stable && by_site.result is None ==> done.result == plain.result
                    && done.position == plain.position
            }
        }),
{
}

/// What is reported of a call that is not matched exactly names the call; where its
/// arguments differ it holds both sides, the recorded and the given, and where it is
/// novel the given alone.
pub proof fn divergences_name_the_call(
    hook: ReplayHook,
    correlation_id: Option<Seq<char>>,
    q: CallQuery,
)
    requires
        0 <= hook.position(correlation_id),
        hook.tape(correlation_id).len() <= usize::MAX,
    ensures
        ({
            let before = hook.report().divergences;
            let done = hook.next_turn(correlation_id, q);
            let t = hook.tape(correlation_id);
            let d = done.report.divergences.last();
            done.report.divergences.len() > before.len() ==> {
                &&& d.boundary == q.boundary
                &&& d.trait_name == q.trait_name
                &&& d.method_name == q.method_name
                &&& d.kind is NovelCall ==> d.candidate == Some(q.args) && d.baseline is None
                &&& d.kind is ArgsDiverged ==> d.candidate == Some(q.args) && d.baseline == Some(
                    hook.events()[t[done.position - 1] as int].args@,
                ) && d.global_sequence == hook.events()[t[done.position
                    - 1] as int].global_sequence
                &&& d.kind is ArgSkipBlocked ==> d.candidate == Some(q.args) && d.baseline is Some
                &&& d.kind is OmittedCall ==> d.global_sequence == hook.events()[t[done.position
                    - 1] as int].global_sequence && d.baseline is None && d.candidate is None
            }
        }),
{
    let t = hook.tape(correlation_id);
    let position = hook.position(correlation_id);
    let end = if position + hook.config().sliding_window_size < t.len() {
        position + hook.config().sliding_window_size
    } else {
        t.len() as int
    };
    first_match_is_the_first(hook.events(), t, position, end, q, true);
    first_match_is_the_first(hook.events(), t, position, end, q, false);
}

/// A turn moves its own tape to where it ends and no other, and leaves the events,
/// the settings and the counters of the sites as they were.
pub proof fn turns_move_their_own_tape(
    before: ReplayHook,
    after: ReplayHook,
    correlation_id: Option<Seq<char>>,
    other: Option<Seq<char>>,
    turn: Turn,
    key: CallsiteKeyView,
)
    requires
        after.moved_on(before, correlation_id, turn),
    ensures
        after.position(correlation_id) == turn.position,
        other != correlation_id ==> after.position(other) == before.position(other),
        after.report() == turn.report,
        after.events() == before.events(),
        after.config() == before.config(),
        after.occurrence(key) == before.occurrence(key),
        after.upcoming_sequence() == before.upcoming_sequence(),
        after.wf(),
{
}

/// A tape holds the events of its correlation and no others, each once, by their
/// position in the request and, at one position, in the order they were recorded.
pub proof fn tapes_go_by_the_request(
    events: Seq<BoundaryEvent>,
    correlation_id: Option<Seq<char>>,
    a: int,
    b: int,
    e: int,
)
    requires
        events.len() <= usize::MAX,
    ensures
        ({
            let t = tape(events, correlation_id);
            &&& 0 <= a < t.len() ==> 0 <= t[a] < events.len()
                && events[t[a] as int].correlation_id.deep_view() == correlation_id
            &&& 0 <= a < b < t.len() ==> events[t[a] as int].request_sequence
                <= events[t[b] as int].request_sequence && (events[t[a] as int].request_sequence
                == events[t[b] as int].request_sequence ==> t[a] < t[b])
            &&& 0 <= e < events.len() && events[e].correlation_id.deep_view() == correlation_id
                ==> t.contains(e as usize)
        }),
{
    let t = tape(events, correlation_id);
    tapes_are_in_order(events, correlation_id);
    if 0 <= a < t.len() {
        assert(t.contains(t[a]));
    }
    if 0 <= a < b < t.len() {
        assert(stands_before(events, t[a], t[b]));
    }
    if 0 <= e < events.len() && events[e].correlation_id.deep_view() == correlation_id {
        assert(t.contains(e as usize) <==> (e as usize) < events.len() && in_correlation(
            events[e as usize as int],
            correlation_id,
        ));
    }
}

/// What is reported of a call at a known site names the recorded call and holds
/// both sides of its arguments; it is reported only where they differ.
pub proof fn divergences_at_a_site_name_the_recorded_call(
    hook: ReplayHook,
    correlation_id: Option<Seq<char>>,
    identity: CallsiteIdentity,
    args: JsonView,
)
    ensures
        ({
            let before = hook.report().divergences;
            let done = hook.next_identity_turn(correlation_id, identity, args);
            let t = hook.tape(correlation_id);
            let d = done.report.divergences.last();
            done.report.divergences.len() > before.len() ==> {
                &&& d.candidate == Some(args)
                &&& d.kind is ArgsDiverged <==> done.result is Some
                &&& d.kind is ArgSkipBlocked <==> done.result is None
                &&& exists|i: int|
                    hook.position(correlation_id) <= i < t.len() && ({
                        let e = hook.events()[#[trigger] t[i] as int];
                        &&& d.boundary == e.boundary@
                        &&& d.trait_name == e.trait_name@
                        &&& d.method_name == e.method_name@
                        &&& d.baseline == Some(e.args@)
                        &&& d.global_sequence == e.global_sequence
                        &&& !json_eq(e.args@, args)
                    })
            }
        }),
{
    let t = hook.tape(correlation_id);
    let position = hook.position(correlation_id);
    first_identity_is_the_first(hook.events(), t, position, identity);
    let found = first_identity(hook.events(), t, position, identity);
    if found is Some {
        let e = hook.events()[t[found->0] as int];
        assert(e == hook.events()[t[found->0] as int]);
    }
}

} // verus!
