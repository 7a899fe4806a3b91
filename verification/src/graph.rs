//! The execution graph: one node for each span, written when the span closes.

use vstd::prelude::*;
use crate::json::{with_member, Json, JsonView};
use crate::table::{Table, TableKey};

verus! {

/// A node of the execution graph.
#[derive(Debug, Clone)]
pub struct ExecutionGraphNode {
    pub node_id: u64,
    /// The position in the stream the node is written to; the stream's owner
    /// sets it.
    pub global_sequence: u64,
    pub parent_id: Option<u64>,
    /// The nodes this one follows from.
    pub causal_parent_ids: Vec<u64>,
    pub sequence: u64,
    /// The run the stream belongs to; the stream's owner sets it.
    pub recording_run_id: Option<String>,
    pub span_name: String,
    pub target: String,
    pub level: String,
    /// The span's fields, an object.
    pub fields: Json,
    pub started_ns: u64,
    pub closed_ns: Option<u64>,
}

/// What a node says.
pub struct ExecutionGraphNodeView {
    pub node_id: u64,
    pub global_sequence: u64,
    pub parent_id: Option<u64>,
    pub causal_parent_ids: Seq<u64>,
    pub sequence: u64,
    pub recording_run_id: Option<Seq<char>>,
    pub span_name: Seq<char>,
    pub target: Seq<char>,
    pub level: Seq<char>,
    pub fields: JsonView,
    pub started_ns: u64,
    pub closed_ns: Option<u64>,
}

impl View for ExecutionGraphNode {
    type V = ExecutionGraphNodeView;

    open spec fn view(&self) -> ExecutionGraphNodeView {
        ExecutionGraphNodeView {
            node_id: self.node_id,
            global_sequence: self.global_sequence,
            parent_id: self.parent_id,
            causal_parent_ids: self.causal_parent_ids@,
            sequence: self.sequence,
            recording_run_id: self.recording_run_id.deep_view(),
            span_name: self.span_name@,
            target: self.target@,
            level: self.level@,
            fields: self.fields@,
            started_ns: self.started_ns,
            closed_ns: self.closed_ns,
        }
    }
}

/// A span as a key.
#[derive(Debug)]
pub struct SpanKey {
    pub span_id: u64,
}

impl TableKey for SpanKey {
    type Key = u64;

    open spec fn key(&self) -> u64 {
        self.span_id
    }

    fn same_key(&self, other: &SpanKey) -> (r: bool) {
        self.span_id == other.span_id
    }
}

/// The nodes of the spans that are open.
pub struct SpanNodes {
    nodes: Table<SpanKey, u64>,
}

impl SpanNodes {
    /// The node of a span, while it is open.
    pub closed spec fn node(self, span_id: u64) -> Option<u64> {
        self.nodes.at(span_id)
    }

    /// No open span.
    pub fn new() -> (r: SpanNodes)
        ensures
            forall|span_id: u64| #[trigger] r.node(span_id) is None,
    {
        SpanNodes { nodes: Table::new() }
    }

    /// The node of a span, while it is open.
    pub fn node_id_for_span(&self, span_id: u64) -> (r: Option<u64>)
        ensures
            r == self.node(span_id),
    {
        match self.nodes.get(&SpanKey { span_id }) {
            Some(node_id) => Some(*node_id),
            None => None,
        }
    }
}

/// The active span, and its node where it is open in the graph.
pub fn current_execution_graph_context(nodes: &SpanNodes, span_id: Option<u64>) -> (r: (
    Option<u64>,
    Option<u64>,
))
    ensures
        r.0 == span_id,
        r.1 == (match span_id {
            Some(id) => nodes.node(id),
            None => None,
        }),
{
    match span_id {
        Some(id) => (span_id, nodes.node_id_for_span(id)),
        None => (None, None),
    }
}

/// The node a new span hangs under: that of its explicit parent, or that of the
/// span it was opened in, where it takes its parent from there.
pub fn graph_parent_id(
    explicit: Option<u64>,
    contextual: bool,
    current: Option<u64>,
) -> (r: Option<u64>)
    ensures
        r == (if explicit is Some {
            explicit
        } else if contextual {
            current
        } else {
            None
        }),
{
    match explicit {
        Some(node_id) => Some(node_id),
        None => if contextual {
            current
        } else {
            None
        },
    }
}

/// What is known of a span when it opens.
#[derive(Debug)]
pub struct SpanStart {
    pub span_name: String,
    pub target: String,
    pub level: String,
    pub fields: Json,
    pub started_ns: u64,
}

/// A span that is open.
#[derive(Debug)]
pub struct GraphSpanState {
    pub node_id: u64,
    pub parent_id: Option<u64>,
    pub causal_parent_ids: Vec<u64>,
    pub sequence: u64,
    pub span_name: String,
    pub target: String,
    pub level: String,
    pub fields: Json,
    pub started_ns: u64,
}

impl GraphSpanState {
    /// Keeps a field, over the value it had.
    pub fn record_field(&mut self, name: String, value: Json)
        ensures
            final(self).fields@ == with_member(old(self).fields@, name@, value@),
            *final(self) == (GraphSpanState { fields: final(self).fields, ..*old(self) }),
    {
        self.fields.insert(name, value);
    }

    /// Notes a node this one follows from, once.
    #[verifier::loop_isolation(false)]
    pub fn follows_from(&mut self, causal_parent_id: u64)
        ensures
            final(self).causal_parent_ids@ == (if old(self).causal_parent_ids@.contains(
                causal_parent_id,
            ) {
                old(self).causal_parent_ids@
            } else {
                old(self).causal_parent_ids@.push(causal_parent_id)
            }),
            *final(self) == (GraphSpanState {
                causal_parent_ids: final(self).causal_parent_ids,
                ..*old(self)
            }),
    {
        let mut i: usize = 0;
        while i < self.causal_parent_ids.len()
            invariant
                0 <= i <= self.causal_parent_ids@.len(),
                *self == *old(self),
                forall|j: int|
                    0 <= j < i ==> (#[trigger] self.causal_parent_ids@[j]) != causal_parent_id,
            decreases self.causal_parent_ids@.len() - i,
        {
            if self.causal_parent_ids[i] == causal_parent_id {
                return;
            }
            i = i + 1;
        }
        self.causal_parent_ids.push(causal_parent_id);
    }

    /// The node of the span. The position in the stream and the run are not the
    /// span's to say.
    pub fn into_node(self, closed_ns: Option<u64>) -> (r: ExecutionGraphNode)
        ensures
            r == self.node(closed_ns),
    {
        ExecutionGraphNode {
            node_id: self.node_id,
            global_sequence: 0,
            parent_id: self.parent_id,
            causal_parent_ids: self.causal_parent_ids,
            sequence: self.sequence,
            recording_run_id: None,
            span_name: self.span_name,
            target: self.target,
            level: self.level,
            fields: self.fields,
            started_ns: self.started_ns,
            closed_ns,
        }
    }

    /// The node of the span.
    pub open spec fn node(self, closed_ns: Option<u64>) -> ExecutionGraphNode {
        ExecutionGraphNode {
            node_id: self.node_id,
            global_sequence: 0,
            parent_id: self.parent_id,
            causal_parent_ids: self.causal_parent_ids,
            sequence: self.sequence,
            recording_run_id: None,
            span_name: self.span_name,
            target: self.target,
            level: self.level,
            fields: self.fields,
            started_ns: self.started_ns,
            closed_ns,
        }
    }
}

/// One more, starting over behind the largest number.
pub open spec fn next_number(n: u64) -> u64 {
    if n == u64::MAX {
        0
    } else {
        (n + 1) as u64
    }
}

/// Numbers the nodes of the graph in the order their spans open.
pub struct ExecutionGraphLayer {
    pub node_ids: u64,
    pub sequence: u64,
}

impl ExecutionGraphLayer {
    /// A graph without nodes.
    pub fn new() -> (r: ExecutionGraphLayer)
        ensures
            r.node_ids == 0,
            r.sequence == 0,
    {
        ExecutionGraphLayer { node_ids: 0, sequence: 0 }
    }

    /// The number of the next node.
    pub fn next_node_id(&mut self) -> (r: u64)
        ensures
            r == old(self).node_ids,
            *final(self) == (ExecutionGraphLayer {
                node_ids: next_number(old(self).node_ids),
                ..*old(self)
            }),
    {
        let node_id = self.node_ids;
        self.node_ids = node_id.wrapping_add(1);
        node_id
    }

    /// The next position in the order of opening.
    pub fn next_sequence(&mut self) -> (r: u64)
        ensures
            r == old(self).sequence,
            *final(self) == (ExecutionGraphLayer {
                sequence: next_number(old(self).sequence),
                ..*old(self)
            }),
    {
        let sequence = self.sequence;
        self.sequence = sequence.wrapping_add(1);
        sequence
    }

    /// Gives a span that opens its node.
    pub fn on_new_span(
        &mut self,
        nodes: &mut SpanNodes,
        span_id: u64,
        parent_id: Option<u64>,
        start: SpanStart,
    ) -> (r: GraphSpanState)
        ensures
            final(self).node_ids == next_number(old(self).node_ids),
            final(self).sequence == next_number(old(self).sequence),
            final(nodes).node(span_id) == Some(old(self).node_ids),
            forall|id: u64| id != span_id ==> #[trigger] final(nodes).node(id) == old(nodes).node(id),
            r.node_id == old(self).node_ids,
            r.parent_id == parent_id,
            r.causal_parent_ids@.len() == 0,
            r.sequence == old(self).sequence,
            r.span_name == start.span_name,
            r.target == start.target,
            r.level == start.level,
            r.fields == start.fields,
            r.started_ns == start.started_ns,
    {
        let node_id = self.next_node_id();
        nodes.nodes.put(SpanKey { span_id }, node_id);
        GraphSpanState {
            node_id,
            parent_id,
            causal_parent_ids: Vec::new(),
            sequence: self.next_sequence(),
            span_name: start.span_name,
            target: start.target,
            level: start.level,
            fields: start.fields,
            started_ns: start.started_ns,
        }
    }

    /// Closes a span, giving its node. It closes no earlier than it opened.
    pub fn on_close(
        nodes: &mut SpanNodes,
        span_id: u64,
        state: GraphSpanState,
        now_ns: u64,
    ) -> (r: ExecutionGraphNode)
        ensures
            final(nodes).node(span_id) is None,
            forall|id: u64| id != span_id ==> #[trigger] final(nodes).node(id) == old(nodes).node(id),
            r == state.node(
                Some(
                    if now_ns >= state.started_ns {
                        now_ns
                    } else {
                        state.started_ns
                    },
                ),
            ),
    {
        nodes.nodes.remove(&SpanKey { span_id });
        let closed_ns = if now_ns >= state.started_ns {
            now_ns
        } else {
            state.started_ns
        };
        state.into_node(Some(closed_ns))
    }
}

/// A node carries what its span is and was given, and the time it closed; its
/// position in the stream and its run are left to the stream's owner.
pub proof fn nodes_carry_their_spans(state: GraphSpanState, closed_ns: Option<u64>)
    ensures
        ({
            let n = state.node(closed_ns);
            &&& n.node_id == state.node_id
            &&& n.parent_id == state.parent_id
            &&& n.causal_parent_ids@ == state.causal_parent_ids@
            &&& n.sequence == state.sequence
            &&& n.span_name@ == state.span_name@
            &&& n.target@ == state.target@
            &&& n.level@ == state.level@
            &&& n.fields@ == state.fields@
            &&& n.started_ns == state.started_ns
            &&& n.closed_ns == closed_ns
            &&& n.global_sequence == 0
            &&& n.recording_run_id is None
        }),
{
}

/// Numbers follow each other by one, and the largest is followed by zero: no two
/// numbers have one successor.
pub proof fn numbers_follow_by_one(a: u64, b: u64)
    ensures
        next_number(a) == (a + 1) % 0x1_0000_0000_0000_0000,
        next_number(a) == next_number(b) ==> a == b,
{
}

/// Two nodes say the same only if they agree in all they hold.
pub proof fn nodes_say_all_they_hold(a: ExecutionGraphNode, b: ExecutionGraphNode)
    ensures
        a@ == b@ ==> a.node_id == b.node_id && a.global_sequence == b.global_sequence && a.parent_id
            == b.parent_id && a.causal_parent_ids@ == b.causal_parent_ids@ && a.sequence
            == b.sequence && a.recording_run_id.deep_view() == b.recording_run_id.deep_view()
            && a.span_name@ == b.span_name@ && a.target@ == b.target@ && a.level@ == b.level@
            && a.fields@ == b.fields@ && a.started_ns == b.started_ns && a.closed_ns
            == b.closed_ns,
{
}

} // verus!
