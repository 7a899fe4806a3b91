//! The calls a replay observes.

use vstd::prelude::*;
use crate::event::Provenance;
use crate::json::{Json, JsonView};
use crate::text::opt_clone;

verus! {

/// A call that was made under replay, and what was found for it in the
/// recording.
#[derive(Debug, Clone)]
pub struct ObservedCall {
    pub correlation_id: Option<String>,
    pub boundary: String,
    pub trait_name: String,
    pub method_name: String,
    pub args: Json,
    /// Whether a recorded result was found.
    pub resolved: bool,
    /// The rank of the address it was found under.
    pub resolved_rank: Option<u8>,
    pub source_event_global_sequence: Option<u64>,
    pub timestamp_ns: u64,
    pub end_timestamp_ns: Option<u64>,
    pub task_id: Option<String>,
    pub parent_task_id: Option<String>,
    pub task_bucket: Option<String>,
    pub bucket_id: Option<String>,
    pub fork_seq: u64,
    pub call_file: Option<String>,
    pub call_line: Option<u32>,
    pub call_column: Option<u32>,
    pub span_path: Option<String>,
    pub graph_node_id: Option<u64>,
    pub synthesized: bool,
    pub real_impl_will_fail: bool,
    pub recorded_result: Option<Json>,
    pub observed_result: Option<Json>,
    pub provenance: Provenance,
    pub seed_gap: bool,
}

/// What an observed call says.
pub struct ObservedCallView {
    pub correlation_id: Option<Seq<char>>,
    pub boundary: Seq<char>,
    pub trait_name: Seq<char>,
    pub method_name: Seq<char>,
    pub args: JsonView,
    pub resolved: bool,
    pub resolved_rank: Option<u8>,
    pub source_event_global_sequence: Option<u64>,
    pub timestamp_ns: u64,
    pub end_timestamp_ns: Option<u64>,
    pub task_id: Option<Seq<char>>,
    pub parent_task_id: Option<Seq<char>>,
    pub task_bucket: Option<Seq<char>>,
    pub bucket_id: Option<Seq<char>>,
    pub fork_seq: u64,
    pub call_file: Option<Seq<char>>,
    pub call_line: Option<u32>,
    pub call_column: Option<u32>,
    pub span_path: Option<Seq<char>>,
    pub graph_node_id: Option<u64>,
    pub synthesized: bool,
    pub real_impl_will_fail: bool,
    pub recorded_result: Option<JsonView>,
    pub observed_result: Option<JsonView>,
    pub provenance: Provenance,
    pub seed_gap: bool,
}

impl View for ObservedCall {
    type V = ObservedCallView;

    open spec fn view(&self) -> ObservedCallView {
        ObservedCallView {
            correlation_id: self.correlation_id.deep_view(),
            boundary: self.boundary@,
            trait_name: self.trait_name@,
            method_name: self.method_name@,
            args: self.args@,
            resolved: self.resolved,
            resolved_rank: self.resolved_rank,
            source_event_global_sequence: self.source_event_global_sequence,
            timestamp_ns: self.timestamp_ns,
            end_timestamp_ns: self.end_timestamp_ns,
            task_id: self.task_id.deep_view(),
            parent_task_id: self.parent_task_id.deep_view(),
            task_bucket: self.task_bucket.deep_view(),
            bucket_id: self.bucket_id.deep_view(),
            fork_seq: self.fork_seq,
            call_file: self.call_file.deep_view(),
            call_line: self.call_line,
            call_column: self.call_column,
            span_path: self.span_path.deep_view(),
            graph_node_id: self.graph_node_id,
            synthesized: self.synthesized,
            real_impl_will_fail: self.real_impl_will_fail,
            recorded_result: self.recorded_result.deep_view(),
            observed_result: self.observed_result.deep_view(),
            provenance: self.provenance,
            seed_gap: self.seed_gap,
        }
    }
}

/// An observed call as it was written down: of its two bucket labels either may
/// be missing.
#[derive(Debug)]
pub struct ObservedCallWire {
    pub correlation_id: Option<String>,
    pub boundary: String,
    pub trait_name: String,
    pub method_name: String,
    pub args: Json,
    pub resolved: bool,
    pub resolved_rank: Option<u8>,
    pub source_event_global_sequence: Option<u64>,
    pub timestamp_ns: u64,
    pub end_timestamp_ns: Option<u64>,
    pub task_id: Option<String>,
    pub parent_task_id: Option<String>,
    pub task_bucket: Option<String>,
    pub bucket_id: Option<String>,
    pub fork_seq: u64,
    pub call_file: Option<String>,
    pub call_line: Option<u32>,
    pub call_column: Option<u32>,
    pub span_path: Option<String>,
    pub graph_node_id: Option<u64>,
    pub synthesized: bool,
    pub real_impl_will_fail: bool,
    pub recorded_result: Option<Json>,
    pub observed_result: Option<Json>,
    pub provenance: Provenance,
    pub seed_gap: bool,
}

/// The first of two that is there.
pub open spec fn either<A>(a: Option<A>, b: Option<A>) -> Option<A> {
    if a is Some {
        a
    } else {
        b
    }
}

/// An observed call with both bucket labels, where it had one.
pub open spec fn read_back(wire: ObservedCallWire) -> ObservedCall {
    ObservedCall {
        correlation_id: wire.correlation_id,
        boundary: wire.boundary,
        trait_name: wire.trait_name,
        method_name: wire.method_name,
        args: wire.args,
        resolved: wire.resolved,
        resolved_rank: wire.resolved_rank,
        source_event_global_sequence: wire.source_event_global_sequence,
        timestamp_ns: wire.timestamp_ns,
        end_timestamp_ns: wire.end_timestamp_ns,
        task_id: wire.task_id,
        parent_task_id: wire.parent_task_id,
        task_bucket: either(wire.task_bucket, wire.bucket_id),
        bucket_id: either(wire.bucket_id, wire.task_bucket),
        fork_seq: wire.fork_seq,
        call_file: wire.call_file,
        call_line: wire.call_line,
        call_column: wire.call_column,
        span_path: wire.span_path,
        graph_node_id: wire.graph_node_id,
        synthesized: wire.synthesized,
        real_impl_will_fail: wire.real_impl_will_fail,
        recorded_result: wire.recorded_result,
        observed_result: wire.observed_result,
        provenance: wire.provenance,
        seed_gap: wire.seed_gap,
    }
}

impl From<ObservedCallWire> for ObservedCall {
    fn from(wire: ObservedCallWire) -> (r: ObservedCall) {
        let bucket_id = match &wire.bucket_id {
            Some(bucket) => Some(bucket.clone()),
            None => opt_clone(&wire.task_bucket),
        };
        let task_bucket = match wire.task_bucket {
            Some(bucket) => Some(bucket),
            None => opt_clone(&bucket_id),
        };
        ObservedCall {
            correlation_id: wire.correlation_id,
            boundary: wire.boundary,
            trait_name: wire.trait_name,
            method_name: wire.method_name,
            args: wire.args,
            resolved: wire.resolved,
            resolved_rank: wire.resolved_rank,
            source_event_global_sequence: wire.source_event_global_sequence,
            timestamp_ns: wire.timestamp_ns,
            end_timestamp_ns: wire.end_timestamp_ns,
            task_id: wire.task_id,
            parent_task_id: wire.parent_task_id,
            task_bucket,
            bucket_id,
            fork_seq: wire.fork_seq,
            call_file: wire.call_file,
            call_line: wire.call_line,
            call_column: wire.call_column,
            span_path: wire.span_path,
            graph_node_id: wire.graph_node_id,
            synthesized: wire.synthesized,
            real_impl_will_fail: wire.real_impl_will_fail,
            recorded_result: wire.recorded_result,
            observed_result: wire.observed_result,
            provenance: wire.provenance,
            seed_gap: wire.seed_gap,
        }
    }
}

impl vstd::std_specs::convert::FromSpecImpl<ObservedCallWire> for ObservedCall {
    open spec fn obeys_from_spec() -> bool {
        true
    }

    open spec fn from_spec(wire: ObservedCallWire) -> ObservedCall {
        read_back(wire)
    }
}

/// Whether a number is zero, so that it need not be written down.
pub fn is_zero_u64(value: &u64) -> (r: bool)
    ensures
        r == (*value == 0),
{
    *value == 0
}

/// An observation that waits for the result of the live call.
#[derive(Debug)]
pub struct ExecuteShadowToken {
    /// The observation, but for the result.
    pub observed: ObservedCall,
}

impl ExecuteShadowToken {
    /// A token that carries an observation.
    pub fn new(observed: ObservedCall) -> (r: ExecuteShadowToken)
        ensures
            r.observed == observed,
    {
        ExecuteShadowToken { observed }
    }

    /// The observation with what the live call gave.
    pub fn into_observed(self, observed_result: Json) -> (r: ObservedCall)
        ensures
            r == (ObservedCall { observed_result: Some(observed_result), ..self.observed }),
    {
        ObservedCall { observed_result: Some(observed_result), ..self.observed }
    }
}

/// An observed call is read back as it was written, and of its two bucket labels a
/// missing one is taken from the other: both are there if one was, and both are
/// missing only if both were.
pub proof fn observed_calls_are_read_back(wire: ObservedCallWire)
    ensures
        ({
            let c = read_back(wire);
            &&& c.correlation_id == wire.correlation_id
            &&& c.boundary == wire.boundary
            &&& c.trait_name == wire.trait_name
            &&& c.method_name == wire.method_name
            &&& c.args == wire.args
            &&& c.resolved == wire.resolved
            &&& c.resolved_rank == wire.resolved_rank
            &&& c.source_event_global_sequence == wire.source_event_global_sequence
            &&& c.timestamp_ns == wire.timestamp_ns
            &&& c.end_timestamp_ns == wire.end_timestamp_ns
            &&& c.task_id == wire.task_id
            &&& c.parent_task_id == wire.parent_task_id
            &&& c.fork_seq == wire.fork_seq
            &&& c.call_file == wire.call_file
            &&& c.call_line == wire.call_line
            &&& c.call_column == wire.call_column
            &&& c.span_path == wire.span_path
            &&& c.graph_node_id == wire.graph_node_id
            &&& c.synthesized == wire.synthesized
            &&& c.real_impl_will_fail == wire.real_impl_will_fail
            &&& c.recorded_result == wire.recorded_result
            &&& c.observed_result == wire.observed_result
            &&& c.provenance == wire.provenance
            &&& c.seed_gap == wire.seed_gap
            &&& wire.task_bucket is Some ==> c.task_bucket == wire.task_bucket
            &&& wire.bucket_id is Some ==> c.bucket_id == wire.bucket_id
            &&& wire.task_bucket is None ==> c.task_bucket == wire.bucket_id
            &&& wire.bucket_id is None ==> c.bucket_id == wire.task_bucket
        }),
{
}

/// Two observed calls say the same only if they agree in all they hold.
pub proof fn observed_calls_say_all_they_hold(a: ObservedCall, b: ObservedCall)
    ensures
        a@ == b@ ==> {
            &&& a.correlation_id.deep_view() == b.correlation_id.deep_view()
            &&& a.boundary@ == b.boundary@
            &&& a.trait_name@ == b.trait_name@
            &&& a.method_name@ == b.method_name@
            &&& a.args@ == b.args@
            &&& a.resolved == b.resolved
            &&& a.resolved_rank == b.resolved_rank
            &&& a.source_event_global_sequence == b.source_event_global_sequence
            &&& a.timestamp_ns == b.timestamp_ns
            &&& a.end_timestamp_ns == b.end_timestamp_ns
            &&& a.task_id.deep_view() == b.task_id.deep_view()
            &&& a.parent_task_id.deep_view() == b.parent_task_id.deep_view()
            &&& a.task_bucket.deep_view() == b.task_bucket.deep_view()
            &&& a.bucket_id.deep_view() == b.bucket_id.deep_view()
            &&& a.fork_seq == b.fork_seq
            &&& a.call_file.deep_view() == b.call_file.deep_view()
            &&& a.call_line == b.call_line
            &&& a.call_column == b.call_column
            &&& a.span_path.deep_view() == b.span_path.deep_view()
            &&& a.graph_node_id == b.graph_node_id
            &&& a.synthesized == b.synthesized
            &&& a.real_impl_will_fail == b.real_impl_will_fail
            &&& a.recorded_result.deep_view() == b.recorded_result.deep_view()
            &&& a.observed_result.deep_view() == b.observed_result.deep_view()
            &&& a.provenance == b.provenance
            &&& a.seed_gap == b.seed_gap
        },
{
}

} // verus!
