//! What a replay found to differ from the recording.

use vstd::prelude::*;
use crate::json::{json_clone, Json, JsonView};

verus! {

/// How a call differed from the recording.
#[derive(Debug, PartialEq)]
pub enum DivergenceKind {
    /// The arguments differ from those recorded.
    ArgsDiverged,
    /// A recorded call was skipped.
    OmittedCall,
    /// The call is not in the recording.
    NovelCall,
    /// The recorded result could not be read as what the call gives.
    DeserializationFailure,
    /// The replay went on, but something differed on the way.
    Recovered,
    /// The correlation differs.
    CorrelationMismatch,
    /// A recorded result was at hand, but the arguments differ and the policy
    /// forbids giving it.
    ArgSkipBlocked,
    /// The call was made live and gave something else than was recorded.
    ValueDiverged { recorded: Json, observed: Json, callsite: String, occurrence: u32 },
    /// The call was made live and nothing was recorded to hold it against.
    InconclusiveSeedGap { callsite: String, occurrence: u32 },
}

/// What a kind of divergence says.
pub enum DivergenceKindView {
    ArgsDiverged,
    OmittedCall,
    NovelCall,
    DeserializationFailure,
    Recovered,
    CorrelationMismatch,
    ArgSkipBlocked,
    ValueDiverged { recorded: JsonView, observed: JsonView, callsite: Seq<char>, occurrence: u32 },
    InconclusiveSeedGap { callsite: Seq<char>, occurrence: u32 },
}

impl View for DivergenceKind {
    type V = DivergenceKindView;

    open spec fn view(&self) -> DivergenceKindView {
        match *self {
            DivergenceKind::ArgsDiverged => DivergenceKindView::ArgsDiverged,
            DivergenceKind::OmittedCall => DivergenceKindView::OmittedCall,
            DivergenceKind::NovelCall => DivergenceKindView::NovelCall,
            DivergenceKind::DeserializationFailure => DivergenceKindView::DeserializationFailure,
            DivergenceKind::Recovered => DivergenceKindView::Recovered,
            DivergenceKind::CorrelationMismatch => DivergenceKindView::CorrelationMismatch,
            DivergenceKind::ArgSkipBlocked => DivergenceKindView::ArgSkipBlocked,
            DivergenceKind::ValueDiverged { recorded, observed, callsite, occurrence } =>
                DivergenceKindView::ValueDiverged {
                recorded: recorded@,
                observed: observed@,
                callsite: callsite@,
                occurrence,
            },
            DivergenceKind::InconclusiveSeedGap { callsite, occurrence } =>
                DivergenceKindView::InconclusiveSeedGap { callsite: callsite@, occurrence },
        }
    }
}

impl Clone for DivergenceKind {
    fn clone(&self) -> (r: DivergenceKind)
        ensures
            r@ == self@,
    {
        match self {
            DivergenceKind::ArgsDiverged => DivergenceKind::ArgsDiverged,
            DivergenceKind::OmittedCall => DivergenceKind::OmittedCall,
            DivergenceKind::NovelCall => DivergenceKind::NovelCall,
            DivergenceKind::DeserializationFailure => DivergenceKind::DeserializationFailure,
            DivergenceKind::Recovered => DivergenceKind::Recovered,
            DivergenceKind::CorrelationMismatch => DivergenceKind::CorrelationMismatch,
            DivergenceKind::ArgSkipBlocked => DivergenceKind::ArgSkipBlocked,
            DivergenceKind::ValueDiverged { recorded, observed, callsite, occurrence } =>
                DivergenceKind::ValueDiverged {
                recorded: recorded.clone(),
                observed: observed.clone(),
                callsite: callsite.clone(),
                occurrence: *occurrence,
            },
            DivergenceKind::InconclusiveSeedGap { callsite, occurrence } =>
                DivergenceKind::InconclusiveSeedGap {
                callsite: callsite.clone(),
                occurrence: *occurrence,
            },
        }
    }
}

/// One difference from the recording.
#[derive(Debug, PartialEq)]
pub struct Divergence {
    pub kind: DivergenceKind,
    pub boundary: String,
    pub trait_name: String,
    pub method_name: String,
    pub detail: String,
    pub baseline: Option<Json>,
    pub candidate: Option<Json>,
    pub global_sequence: u64,
}

/// What a divergence says.
pub struct DivergenceView {
    pub kind: DivergenceKindView,
    pub boundary: Seq<char>,
    pub trait_name: Seq<char>,
    pub method_name: Seq<char>,
    pub detail: Seq<char>,
    pub baseline: Option<JsonView>,
    pub candidate: Option<JsonView>,
    pub global_sequence: u64,
}

impl View for Divergence {
    type V = DivergenceView;

    open spec fn view(&self) -> DivergenceView {
        DivergenceView {
            kind: self.kind@,
            boundary: self.boundary@,
            trait_name: self.trait_name@,
            method_name: self.method_name@,
            detail: self.detail@,
            baseline: self.baseline.deep_view(),
            candidate: self.candidate.deep_view(),
            global_sequence: self.global_sequence,
        }
    }
}

impl Clone for Divergence {
    fn clone(&self) -> (r: Divergence)
        ensures
            r@ == self@,
    {
        Divergence {
            kind: self.kind.clone(),
            boundary: self.boundary.clone(),
            trait_name: self.trait_name.clone(),
            method_name: self.method_name.clone(),
            detail: self.detail.clone(),
            baseline: json_clone(&self.baseline),
            candidate: json_clone(&self.candidate),
            global_sequence: self.global_sequence,
        }
    }
}

/// What divergences say.
pub open spec fn divergence_views(s: Seq<Divergence>) -> Seq<DivergenceView> {
    s.map_values(|d: Divergence| d@)
}

/// What a replay came to.
#[derive(Debug, PartialEq)]
pub struct ReplayReport {
    pub total_calls: u64,
    pub matched_calls: u64,
    pub divergence_count: u64,
    pub divergences: Vec<Divergence>,
}

/// What a report says.
pub struct ReplayReportView {
    pub total_calls: u64,
    pub matched_calls: u64,
    pub divergence_count: u64,
    pub divergences: Seq<DivergenceView>,
}

impl View for ReplayReport {
    type V = ReplayReportView;

    open spec fn view(&self) -> ReplayReportView {
        ReplayReportView {
            total_calls: self.total_calls,
            matched_calls: self.matched_calls,
            divergence_count: self.divergence_count,
            divergences: divergence_views(self.divergences@),
        }
    }
}

impl ReplayReportView {
    /// A report of nothing.
    pub open spec fn empty() -> ReplayReportView {
        ReplayReportView {
            total_calls: 0,
            matched_calls: 0,
            divergence_count: 0,
            divergences: Seq::empty(),
        }
    }

    /// The report with one more call that was given what was recorded.
    pub open spec fn matched(self) -> ReplayReportView {
        ReplayReportView { matched_calls: (self.matched_calls + 1) as u64, ..self }
    }

    /// The report with one more divergence.
    pub open spec fn diverged(self, d: DivergenceView) -> ReplayReportView {
        ReplayReportView {
            divergence_count: (self.divergence_count + 1) as u64,
            divergences: self.divergences.push(d),
            ..self
        }
    }

    /// Whether the report counts as many divergences as it holds.
    pub open spec fn counts_its_divergences(self) -> bool {
        self.divergence_count == self.divergences.len()
    }

    /// Whether the counters can count `n` more.
    pub open spec fn has_room(self, n: nat) -> bool {
        self.total_calls + n <= u64::MAX && self.matched_calls + n <= u64::MAX
            && self.divergence_count + n <= u64::MAX
    }
}

impl Default for ReplayReport {
    fn default() -> (r: ReplayReport)
        ensures
            r@ == ReplayReportView::empty(),
    {
        ReplayReport::new()
    }
}

impl ReplayReport {
    /// A report of nothing.
    pub fn new() -> (r: ReplayReport)
        ensures
            r@ == ReplayReportView::empty(),
    {
        let report = ReplayReport {
            total_calls: 0,
            matched_calls: 0,
            divergence_count: 0,
            divergences: Vec::new(),
        };
        proof {
            assert(divergence_views(report.divergences@) =~= Seq::<DivergenceView>::empty());
        }
        report
    }

    /// Whether anything differed.
    pub fn has_divergences(&self) -> (r: bool)
        ensures
            r == (self@.divergences.len() > 0),
    {
        self.divergences.len() > 0
    }

    /// Adds a divergence.
    pub fn push(&mut self, div: Divergence)
        requires
            old(self).divergence_count < u64::MAX,
        ensures
            final(self)@ == old(self)@.diverged(div@),
    {
        let ghost was = self.divergences@;
        self.divergence_count = self.divergence_count + 1;
        self.divergences.push(div);
        proof {
            assert(divergence_views(self.divergences@) =~= divergence_views(was).push(div@));
        }
    }

    /// Counts a call that was given what was recorded.
    pub fn count_match(&mut self)
        requires
            old(self).matched_calls < u64::MAX,
        ensures
            final(self)@ == old(self)@.matched(),
    {
        self.matched_calls = self.matched_calls + 1;
    }
}

impl Clone for ReplayReport {
    #[verifier::loop_isolation(false)]
    fn clone(&self) -> (r: ReplayReport)
        ensures
            r@ == self@,
    {
        let mut divergences: Vec<Divergence> = Vec::new();
        let ghost all = divergence_views(self.divergences@);
        let mut i: usize = 0;
        while i < self.divergences.len()
            invariant
                0 <= i <= self.divergences@.len(),
                divergence_views(divergences@) =~= all.take(i as int),
            decreases self.divergences@.len() - i,
        {
            divergences.push(self.divergences[i].clone());
            i = i + 1;
        }
        proof {
            assert(all.take(all.len() as int) =~= all);
        }
        ReplayReport {
            total_calls: self.total_calls,
            matched_calls: self.matched_calls,
            divergence_count: self.divergence_count,
            divergences,
        }
    }
}

/// When a recorded result may be given although the arguments differ.
#[derive(Debug, Clone, Copy, PartialEq, Eq, Structural)]
pub enum ArgMismatchPolicy {
    Never,
    /// Only where the call has arguments at all.
    OnlyForArgful,
    Always,
}

impl Default for ArgMismatchPolicy {
    fn default() -> (r: ArgMismatchPolicy)
        ensures
            r is OnlyForArgful,
    {
        ArgMismatchPolicy::OnlyForArgful
    }
}

/// Whether a call has no arguments: null, or an object without members.
pub open spec fn argless(args: JsonView) -> bool {
    args is Null || (args is Object && args->Object_0.len() == 0)
}

/// Whether a call has no arguments.
pub fn args_are_empty(args: &Json) -> (r: bool)
    ensures
        r == argless(args@),
{
    match args {
        Json::Null => true,
        Json::Object(members) => members.len() == 0,
        _ => false,
    }
}

impl ArgMismatchPolicy {
    /// Whether a call may be given a result recorded for other arguments.
    pub open spec fn allows(self, args: JsonView) -> bool {
        match self {
            ArgMismatchPolicy::Never => false,
            ArgMismatchPolicy::OnlyForArgful => !argless(args),
            ArgMismatchPolicy::Always => true,
        }
    }

    /// Whether a call may be given a result recorded for other arguments.
    pub fn allow_arg_mismatch(self, args: &Json) -> (r: bool)
        ensures
            r == self.allows(args@),
    {
        match self {
            ArgMismatchPolicy::Never => false,
            ArgMismatchPolicy::OnlyForArgful => !args_are_empty(args),
            ArgMismatchPolicy::Always => true,
        }
    }
}

/// How a replay matches calls.
#[derive(Debug, Clone, Copy, PartialEq, Eq, Structural)]
pub struct ReplayConfig {
    /// How many events ahead a call is looked for.
    pub sliding_window_size: usize,
    pub arg_mismatch_policy: ArgMismatchPolicy,
}

impl Default for ReplayConfig {
    fn default() -> (r: ReplayConfig)
        ensures
            r.sliding_window_size == 20,
            r.arg_mismatch_policy is OnlyForArgful,
    {
        ReplayConfig {
            sliding_window_size: 20,
            arg_mismatch_policy: ArgMismatchPolicy::OnlyForArgful,
        }
    }
}

/// A call has no arguments if they are null or an object without members, and any
/// other value is an argument. The policy forbids every other result, allows every
/// other result, or allows it where there are arguments.
pub proof fn policies_read_the_arguments(
    args: JsonView,
    members: Seq<(Seq<char>, JsonView)>,
    items: Seq<JsonView>,
)
    ensures
        argless(JsonView::Null),
        argless(JsonView::Object(members)) <==> members.len() == 0,
        !argless(JsonView::Array(items)),
        args is Bool || args is Number || args is String ==> !argless(args),
        !ArgMismatchPolicy::Never.allows(args),
        ArgMismatchPolicy::Always.allows(args),
        ArgMismatchPolicy::OnlyForArgful.allows(args) <==> !argless(args),
{
}

/// A match adds one to the matched calls alone; a divergence adds itself behind
/// the others and one to their count alone; an empty report holds nothing.
pub proof fn reports_add_up(r: ReplayReportView, d: DivergenceView)
    requires
        r.has_room(1),
    ensures
        r.matched().matched_calls == r.matched_calls + 1,
        r.matched().total_calls == r.total_calls,
        r.matched().divergence_count == r.divergence_count,
        r.matched().divergences == r.divergences,
        r.diverged(d).divergence_count == r.divergence_count + 1,
        r.diverged(d).divergences.len() == r.divergences.len() + 1,
        r.diverged(d).divergences.last() == d,
        r.diverged(d).divergences.drop_last() == r.divergences,
        r.diverged(d).total_calls == r.total_calls,
        r.diverged(d).matched_calls == r.matched_calls,
        r.counts_its_divergences() ==> r.diverged(d).counts_its_divergences(),
        ReplayReportView::empty().total_calls == 0,
        ReplayReportView::empty().matched_calls == 0,
        ReplayReportView::empty().divergence_count == 0,
        ReplayReportView::empty().divergences.len() == 0,
{
    assert(r.divergences.push(d).drop_last() =~= r.divergences);
}

/// Two divergences say the same only if they agree in all they hold.
pub proof fn divergences_say_all_they_hold(a: Divergence, b: Divergence)
    ensures
        a@ == b@ ==> a.kind@ == b.kind@ && a.boundary@ == b.boundary@ && a.trait_name@
            == b.trait_name@ && a.method_name@ == b.method_name@ && a.detail@ == b.detail@
            && a.baseline.deep_view() == b.baseline.deep_view() && a.candidate.deep_view()
            == b.candidate.deep_view() && a.global_sequence == b.global_sequence,
{
}

} // verus!
