//! What surrounds a call: the correlation, the lineage and the span it runs in.

use vstd::prelude::*;
use crate::builder::CallLocation;
use crate::event::{CallsiteIdentity, RuntimeMode};
use crate::json::Json;
use crate::lineage::{root_lineage, LineageView, TaskLineage};
use crate::text::opt_clone;

verus! {

/// Whether the calls of a correlation are recorded.
#[derive(Debug, Clone, Copy, PartialEq, Eq, Structural)]
pub enum RecordDecision {
    Record,
    Skip,
}

impl RecordDecision {
    /// Whether the decision is to record.
    pub fn should_record(self) -> (r: bool)
        ensures
            r == (self is Record),
    {
        matches!(self, RecordDecision::Record)
    }
}

/// What surrounds a call.
#[derive(Debug)]
pub struct Ambient {
    /// The correlation the call runs in.
    pub correlation_id: Option<String>,
    /// What was decided for the correlation, where anything was.
    pub decision: Option<RecordDecision>,
    /// The lineage of the innermost span, where one is entered.
    pub lineage: Option<TaskLineage>,
    /// The path of the innermost span, where one is entered.
    pub span_path: Option<String>,
    pub tracing_span_id: Option<u64>,
    /// The node of the innermost span in the execution graph.
    pub graph_node_id: Option<u64>,
    /// The run the process was started as.
    pub process_run_id: Option<String>,
    pub now_ns: u64,
}

impl Clone for Ambient {
    fn clone(&self) -> (r: Ambient)
        ensures
            r == *self,
    {
        Ambient {
            correlation_id: opt_clone(&self.correlation_id),
            decision: self.decision,
            lineage: match &self.lineage {
                Some(lineage) => Some(lineage.clone()),
                None => None,
            },
            span_path: opt_clone(&self.span_path),
            tracing_span_id: self.tracing_span_id,
            graph_node_id: self.graph_node_id,
            process_run_id: opt_clone(&self.process_run_id),
            now_ns: self.now_ns,
        }
    }
}

impl Ambient {
    /// The lineage a call is stamped with: that of the innermost span, or the
    /// root's where no span is entered.
    pub open spec fn task(self) -> LineageView {
        match self.lineage {
            Some(lineage) => lineage@,
            None => root_lineage(),
        }
    }

    /// The lineage a call is stamped with.
    pub fn task_lineage(&self) -> (r: TaskLineage)
        ensures
            r@ == self.task(),
    {
        match &self.lineage {
            Some(lineage) => lineage.clone(),
            None => TaskLineage::root(),
        }
    }
}

/// Whether a recorder whose writer is running records: unless the correlation
/// was decided against.
pub open spec fn recording_mode(writer_active: bool, decision: Option<RecordDecision>) -> RuntimeMode {
    if writer_active && decision != Some(RecordDecision::Skip) {
        RuntimeMode::Record
    } else {
        RuntimeMode::Disabled
    }
}

/// A call to look up in a recording.
#[derive(Debug)]
pub struct ReplayLookup<'a> {
    pub boundary: &'a str,
    pub trait_name: &'a str,
    pub method_name: &'a str,
    pub args: &'a Json,
    pub callsite_identity: Option<&'a CallsiteIdentity>,
    pub caller_location: Option<CallLocation>,
}

/// A recorder records while its writer runs and the correlation was not decided
/// against, and is disabled otherwise; it never replays. A call without a span of
/// its own is stamped with the root's lineage.
pub proof fn only_decided_calls_are_skipped(
    writer_active: bool,
    decision: Option<RecordDecision>,
    ambient: Ambient,
)
    ensures
        recording_mode(writer_active, decision) is Record <==> writer_active && !(decision is Some
            && decision->0 is Skip),
        recording_mode(writer_active, decision) is Disabled <==> !writer_active || (decision is Some
            && decision->0 is Skip),
        ambient.lineage matches Some(l) ==> ambient.task().task_id == l.task_id@
            && ambient.task().parent_task_id == l.parent_task_id.deep_view()
            && ambient.task().bucket_id == l.bucket_id@ && ambient.task().fork_seq == l.fork_seq,
        ambient.lineage is None ==> ambient.task() == root_lineage(),
{
}

} // verus!
