//! Recording: numbering events and graph nodes, and handing them out as one
//! stream of records.

use vstd::prelude::*;
use crate::ambient::{recording_mode, Ambient};
use crate::event::{BoundaryEvent, CallsiteSource, RuntimeMode};
use crate::graph::{next_number, ExecutionGraphNode};
use crate::json::{render_json, rendered_json, Json, JsonView};
use crate::lookup_hook::site;
use crate::observed::ObservedCall;
use crate::table::{CallsiteKey, CallsiteKeyView, Table, TextKey};
use crate::text::{
    chars_of, decimal, joined, numbers_are_read_back, opt_string, parse_u64, split, split_on,
    text_of, texts, trim, trimmed, u64_of,
};

verus! {

/// The nanoseconds of the clock since the start of 1970, cut to 64 bits; 0 for
/// a clock that stands before it.
pub open spec fn reading_of(elapsed: Option<u128>) -> u64 {
    match elapsed {
        Some(n) => (n % 0x1_0000_0000_0000_0000) as u64,
        None => 0,
    }
}

/// What a clock says, as a time.
pub fn clock_reading(elapsed: Option<u128>) -> (r: u64)
    ensures
        r == reading_of(elapsed),
{
    match elapsed {
        Some(n) => {
            proof {
                assert(n as u64 == n % 0x1_0000_0000_0000_0000) by (bit_vector);
            }
            n as u64
        },
        None => 0,
    }
}

/// The nanoseconds of the system clock since the start of 1970:
/// `std::time::SystemTime::elapsed` of `UNIX_EPOCH`. Nothing is claimed of what
/// it reads; it is none where the clock stands before 1970.
#[verifier::external_body]
fn elapsed_since_epoch() -> Option<u128> {
    std::time::UNIX_EPOCH.elapsed().ok().map(|d| d.as_nanos())
}

/// Whether a time was read off the system clock.
pub closed spec fn read_off_the_clock(ns: u64) -> bool {
    exists|elapsed: Option<u128>| #[trigger]
        call_ensures(elapsed_since_epoch, (), elapsed) && ns == reading_of(elapsed)
}

/// The time now, in nanoseconds since the start of 1970.
pub fn now_ns() -> (r: u64)
    ensures
        read_off_the_clock(r),
{
    let clock = elapsed_since_epoch;
    clock_reading(clock())
}

/// One record of a stream.
#[derive(Debug, Clone)]
pub enum DejaRecord {
    BoundaryEvent(Box<BoundaryEvent>),
    GraphNode(ExecutionGraphNode),
    Observed(Box<ObservedCall>),
}

impl DejaRecord {
    /// The position of the record in its stream.
    pub fn global_sequence(&self) -> (r: u64)
        ensures
            r == (match *self {
                DejaRecord::BoundaryEvent(event) => event.global_sequence,
                DejaRecord::GraphNode(node) => node.global_sequence,
                DejaRecord::Observed(call) => match call.source_event_global_sequence {
                    Some(n) => n,
                    None => 0,
                },
            }),
    {
        match self {
            DejaRecord::BoundaryEvent(event) => event.global_sequence,
            DejaRecord::GraphNode(node) => node.global_sequence,
            DejaRecord::Observed(call) => match call.source_event_global_sequence {
                Some(n) => n,
                None => 0,
            },
        }
    }
}

/// Records events and graph nodes.
pub struct RecordingHook {
    /// Whether the writer behind the hook is running.
    pub writer_active: bool,
    pub global_counter: u64,
    /// Graph nodes are numbered apart, so that the numbers of events do not
    /// depend on them.
    pub graph_counter: u64,
    pub request_counters: Table<TextKey, u64>,
    /// The counter of events without a correlation.
    pub uncorrelated_counter: u64,
    pub run_id: String,
    pub callsite_occurrence: Table<CallsiteKey, u64>,
    /// What was recorded and not yet handed out.
    pub records: Vec<DejaRecord>,
}

impl RecordingHook {
    /// The next position of an event in the request of a correlation.
    pub open spec fn upcoming_request(self, correlation_id: Option<Seq<char>>) -> u64 {
        match correlation_id {
            Some(id) => self.request_counters.upcoming(id, 0),
            None => self.uncorrelated_counter,
        }
    }

    /// A recorder that has recorded nothing, for a run.
    pub fn with_run_id(recording_run_id: String) -> (r: RecordingHook)
        ensures
            r.writer_active,
            r.global_counter == 0,
            r.graph_counter == 0,
            forall|c: Option<Seq<char>>| #[trigger] r.upcoming_request(c) == 0,
            forall|key: CallsiteKeyView| #[trigger] r.callsite_occurrence.upcoming(key, 0) == 0,
            r.run_id == recording_run_id,
            r.records@.len() == 0,
    {
        RecordingHook {
            writer_active: true,
            global_counter: 0,
            graph_counter: 0,
            request_counters: Table::new(),
            uncorrelated_counter: 0,
            run_id: recording_run_id,
            callsite_occurrence: Table::new(),
            records: Vec::new(),
        }
    }

    /// The run the events belong to.
    pub fn recording_run_id(&self) -> (r: &str)
        ensures
            r@ == self.run_id@,
    {
        self.run_id.as_str()
    }

    /// Whether a call is recorded: while the writer runs, unless the
    /// correlation was decided against.
    pub fn mode(&self, ambient: &Ambient) -> (r: RuntimeMode)
        ensures
            r == recording_mode(self.writer_active, ambient.decision),
    {
        let decided = match ambient.decision {
            Some(decision) => decision.should_record(),
            None => true,
        };
        if self.writer_active && decided {
            RuntimeMode::Record
        } else {
            RuntimeMode::Disabled
        }
    }

    /// Records an event.
    pub fn record(&mut self, event: BoundaryEvent)
        ensures
            final(self).records@ == old(self).records@.push(
                DejaRecord::BoundaryEvent(Box::new(event)),
            ),
            *final(self) == (RecordingHook { records: final(self).records, ..*old(self) }),
    {
        self.records.push(DejaRecord::BoundaryEvent(Box::new(event)));
    }

    /// Records a node of the execution graph, at the next position among nodes
    /// and for the run.
    pub fn graph_node(&mut self, node: ExecutionGraphNode)
        ensures
            final(self).records@ == old(self).records@.push(
                DejaRecord::GraphNode(
                    ExecutionGraphNode {
                        global_sequence: old(self).graph_counter,
                        recording_run_id: Some(old(self).run_id),
                        ..node
                    },
                ),
            ),
            final(self).graph_counter == next_number(old(self).graph_counter),
            *final(self) == (RecordingHook {
                records: final(self).records,
                graph_counter: final(self).graph_counter,
                ..*old(self)
            }),
    {
        let global_sequence = self.graph_counter;
        self.graph_counter = global_sequence.wrapping_add(1);
        self.records.push(
            DejaRecord::GraphNode(
                ExecutionGraphNode {
                    global_sequence,
                    recording_run_id: Some(self.run_id.clone()),
                    ..node
                },
            ),
        );
    }

    /// Hands the records out, in the order they were recorded.
    pub fn take_records(&mut self) -> (r: Vec<DejaRecord>)
        ensures
            r == old(self).records,
            final(self).records@.len() == 0,
            *final(self) == (RecordingHook { records: final(self).records, ..*old(self) }),
    {
        let mut records: Vec<DejaRecord> = Vec::new();
        std::mem::swap(&mut records, &mut self.records);
        records
    }

    /// The next position among all events.
    pub fn next_global_sequence(&mut self) -> (r: u64)
        ensures
            r == old(self).global_counter,
            *final(self) == (RecordingHook {
                global_counter: next_number(old(self).global_counter),
                ..*old(self)
            }),
    {
        let number = self.global_counter;
        self.global_counter = number.wrapping_add(1);
        number
    }

    /// The next position in the request of a correlation. Events without a
    /// correlation are numbered together.
    pub fn next_request_sequence(&mut self, correlation_id: Option<&str>) -> (r: u64)
        requires
            correlation_id is Some ==> old(self).upcoming_request(correlation_id.deep_view())
                < u64::MAX,
        ensures
            r == old(self).upcoming_request(correlation_id.deep_view()),
            forall|c: Option<Seq<char>>| #[trigger]
                final(self).upcoming_request(c) == (if c == correlation_id.deep_view() {
                    next_number(old(self).upcoming_request(c))
                } else {
                    old(self).upcoming_request(c)
                }),
            *final(self) == (RecordingHook {
                request_counters: final(self).request_counters,
                uncorrelated_counter: final(self).uncorrelated_counter,
                ..*old(self)
            }),
    {
        let ghost before = *self;
        match correlation_id {
            Some(id) => {
                let number = self.request_counters.take_number(TextKey { text: id.to_owned() }, 0);
                proof {
                    assert forall|c: Option<Seq<char>>| #[trigger]
                        self.upcoming_request(c) == (if c == correlation_id.deep_view() {
                            next_number(before.upcoming_request(c))
                        } else {
                            before.upcoming_request(c)
                        }) by {
                        if c is Some && c != Some(id@) {
                            assert(self.request_counters.at(c->0) == before.request_counters.at(
                                c->0,
                            ));
                        }
                    }
                }
                number
            },
            None => {
                let number = self.uncorrelated_counter;
                self.uncorrelated_counter = number.wrapping_add(1);
                number
            },
        }
    }

    /// The occurrence of a call at its site: one more with each call in the
    /// same correlation, lineage bucket, source and scope.
    pub fn next_callsite_occurrence(
        &mut self,
        correlation_id: Option<&str>,
        source: CallsiteSource,
        scope: Option<&str>,
        ambient: &Ambient,
    ) -> (r: u32)
        requires
            old(self).callsite_occurrence.upcoming(
                site(correlation_id.deep_view(), *ambient, source, scope.deep_view()),
                0,
            ) < u32::MAX,
        ensures
            ({
                let key = site(correlation_id.deep_view(), *ambient, source, scope.deep_view());
                &&& r == old(self).callsite_occurrence.upcoming(key, 0)
                &&& final(self).callsite_occurrence.upcoming(key, 0) == r + 1
                &&& forall|k: CallsiteKeyView|
                    k != key ==> #[trigger] final(self).callsite_occurrence.upcoming(k, 0) == old(
                        self,
                    ).callsite_occurrence.upcoming(k, 0)
                &&& *final(self) == (RecordingHook {
                    callsite_occurrence: final(self).callsite_occurrence,
                    ..*old(self)
                })
            }),
    {
        let lineage = ambient.task_lineage();
        let ghost key = site(correlation_id.deep_view(), *ambient, source, scope.deep_view());
        let ghost before = self.callsite_occurrence;
        let number = self.callsite_occurrence.take_number(
            CallsiteKey {
                correlation_id: opt_string(correlation_id),
                bucket_id: Some(lineage.bucket_id),
                source,
                scope: opt_string(scope),
            },
            0,
        );
        proof {
            assert forall|k: CallsiteKeyView| k != key implies #[trigger]
                self.callsite_occurrence.upcoming(k, 0) == before.upcoming(k, 0) by {
                assert(self.callsite_occurrence.at(k) == before.at(k));
            }
        }
        number as u32
    }
}

/// The lines of a stream that hold a record: those that are not blank.
pub open spec fn lines_with_records(lines: Seq<Seq<char>>) -> Seq<Seq<char>>
    decreases lines.len(),
{
    if lines.len() == 0 {
        Seq::empty()
    } else {
        let before = lines_with_records(lines.drop_last());
        if trimmed(lines.last()).len() == 0 {
            before
        } else {
            before.push(lines.last())
        }
    }
}

/// The lines of a stream that hold a record.
#[verifier::loop_isolation(false)]
pub fn record_lines(text: &str) -> (r: Vec<String>)
    ensures
        texts(r@) == lines_with_records(split_on(text@, '\n')),
{
    let lines = split(text, '\n');
    let ghost all = split_on(text@, '\n');
    let mut out: Vec<String> = Vec::new();
    let mut i: usize = 0;
    proof {
        assert(all.take(0) =~= Seq::<Seq<char>>::empty());
        assert(texts(out@) =~= Seq::<Seq<char>>::empty());
    }
    while i < lines.len()
        invariant
            0 <= i <= lines@.len(),
            texts(out@) == lines_with_records(all.take(i as int)),
        decreases lines@.len() - i,
    {
        proof {
            assert(all.take(i as int + 1).drop_last() =~= all.take(i as int));
            assert(all.take(i as int + 1).last() == texts(lines@)[i as int]);
        }
        let content = trim(lines[i].as_str());
        if !content.as_str().is_empty() {
            let ghost was = out@;
            out.push(lines[i].clone());
            proof {
                assert(texts(out@) =~= texts(was).push(lines@[i as int]@));
            }
        }
        i = i + 1;
    }
    proof {
        assert(all.take(all.len() as int) =~= all);
    }
    out
}

/// The events of a stream, in its order.
pub open spec fn stream_events(records: Seq<DejaRecord>) -> Seq<BoundaryEvent>
    decreases records.len(),
{
    if records.len() == 0 {
        Seq::empty()
    } else {
        let behind = stream_events(records.drop_first());
        match records[0] {
            DejaRecord::BoundaryEvent(event) => seq![*event] + behind,
            _ => behind,
        }
    }
}

/// The graph nodes of a stream, in its order.
pub open spec fn stream_nodes(records: Seq<DejaRecord>) -> Seq<ExecutionGraphNode>
    decreases records.len(),
{
    if records.len() == 0 {
        Seq::empty()
    } else {
        let behind = stream_nodes(records.drop_first());
        match records[0] {
            DejaRecord::GraphNode(node) => seq![node] + behind,
            _ => behind,
        }
    }
}

fn reversed(records: Vec<DejaRecord>) -> (r: Vec<DejaRecord>)
    ensures
        r@ == records@.reverse(),
{
    let mut rest = records;
    let ghost all = rest@;
    let mut out: Vec<DejaRecord> = Vec::new();
    proof {
        assert(out@ + rest@.reverse() =~= all.reverse());
    }
    while rest.len() > 0
        invariant
            out@ + rest@.reverse() =~= all.reverse(),
        decreases rest@.len(),
    {
        let ghost now = rest@;
        let ghost was = out@;
        if let Some(record) = rest.pop() {
            out.push(record);
            proof {
                assert(now.reverse() =~= seq![record] + rest@.reverse());
                assert(out@ + rest@.reverse() =~= was + now.reverse());
            }
        }
    }
    proof {
        assert(out@ =~= all.reverse());
    }
    out
}

/// The events of a stream, in its order. Records of other kinds are left out.
#[verifier::loop_isolation(false)]
pub fn events_in(records: Vec<DejaRecord>) -> (r: Vec<BoundaryEvent>)
    ensures
        r@ == stream_events(records@),
{
    let ghost all = records@;
    let mut rest = reversed(records);
    let mut out: Vec<BoundaryEvent> = Vec::new();
    proof {
        assert(rest@.reverse() =~= all);
        assert(out@ + stream_events(rest@.reverse()) =~= stream_events(all));
    }
    while rest.len() > 0
        invariant
            out@ + stream_events(rest@.reverse()) =~= stream_events(all),
        decreases rest@.len(),
    {
        let ghost now = rest@;
        let ghost was = out@;
        if let Some(record) = rest.pop() {
            proof {
                assert(now.reverse()[0] == record);
                assert(now.reverse().drop_first() =~= rest@.reverse());
            }
            match record {
                DejaRecord::BoundaryEvent(event) => {
                    let event = *event;
                    out.push(event);
                    proof {
                        assert(out@ =~= was + seq![event]);
                    }
                },
                _ => (),
            }
        }
    }
    proof {
        assert(rest@.reverse() =~= Seq::<DejaRecord>::empty());
    }
    out
}

/// The graph nodes of a stream, in its order. Records of other kinds are left
/// out.
#[verifier::loop_isolation(false)]
pub fn graph_nodes_in(records: Vec<DejaRecord>) -> (r: Vec<ExecutionGraphNode>)
    ensures
        r@ == stream_nodes(records@),
{
    let ghost all = records@;
    let mut rest = reversed(records);
    let mut out: Vec<ExecutionGraphNode> = Vec::new();
    proof {
        assert(rest@.reverse() =~= all);
        assert(out@ + stream_nodes(rest@.reverse()) =~= stream_nodes(all));
    }
    while rest.len() > 0
        invariant
            out@ + stream_nodes(rest@.reverse()) =~= stream_nodes(all),
        decreases rest@.len(),
    {
        let ghost now = rest@;
        let ghost was = out@;
        if let Some(record) = rest.pop() {
            proof {
                assert(now.reverse()[0] == record);
                assert(now.reverse().drop_first() =~= rest@.reverse());
            }
            match record {
                DejaRecord::GraphNode(node) => {
                    out.push(node);
                    proof {
                        assert(out@ =~= was + seq![node]);
                    }
                },
                _ => (),
            }
        }
    }
    proof {
        assert(rest@.reverse() =~= Seq::<DejaRecord>::empty());
    }
    out
}

/// Why a hash cannot be read.
#[derive(Debug, PartialEq, Eq)]
pub enum HashReadError {
    /// A text that is no whole number of 64 bits.
    Text,
    /// Neither a number nor a text; with a message that says what it is.
    Other(String),
}

/// A text as a whole number, with or without a plus sign before it.
pub open spec fn signed_u64(s: Seq<char>) -> Option<u64> {
    if s.len() > 1 && s[0] == '+' {
        u64_of(s.drop_first())
    } else {
        u64_of(s)
    }
}

/// Reads a hash that may be missing, written as a number or as a text. A number
/// that is no whole one of 64 bits counts as missing.
pub fn de_u64_opt_lenient(value: Option<&Json>) -> (r: Result<Option<u64>, HashReadError>)
    ensures
        match value {
            None => r == Ok::<Option<u64>, HashReadError>(None),
            Some(v) => match v@ {
                JsonView::Null => r == Ok::<Option<u64>, HashReadError>(None),
                JsonView::Number(n) => r == Ok::<Option<u64>, HashReadError>(u64_of(n)),
                JsonView::String(s) => r == (match signed_u64(s) {
                    Some(n) => Ok::<Option<u64>, HashReadError>(Some(n)),
                    None => Err(HashReadError::Text),
                }),
                _ => r matches Err(HashReadError::Other(message)) && message@
                    == "syntax_hash: expected u64 number or string, got "@ + rendered_json(v@),
            },
        },
{
    match value {
        None => Ok(None),
        Some(v) => match v {
            Json::Null => Ok(None),
            Json::Number(n) => Ok(parse_u64(n.as_str())),
            Json::String(s) => {
                let chars = chars_of(s.as_str());
                let number = if chars.len() > 1 && chars[0] == '+' {
                    proof {
                        assert(s@.subrange(1, s@.len() as int) =~= s@.drop_first());
                    }
                    parse_u64(text_of(&chars, 1, chars.len()).as_str())
                } else {
                    parse_u64(s.as_str())
                };
                match number {
                    Some(n) => Ok(Some(n)),
                    None => Err(HashReadError::Text),
                }
            },
            _ => {
                let text = render_json(v);
                Err(
                    HashReadError::Other(
                        joined("syntax_hash: expected u64 number or string, got ", text.as_str()),
                    ),
                )
            },
        },
    }
}

/// Every line of a stream that is not blank holds a record, and no other line
/// does; they are given as they stand, in their order.
pub proof fn every_line_that_is_not_blank_is_given(
    a: Seq<Seq<char>>,
    b: Seq<Seq<char>>,
    line: Seq<char>,
)
    ensures
        lines_with_records(a + b) == lines_with_records(a) + lines_with_records(b),
        trimmed(line).len() > 0 ==> lines_with_records(seq![line]) == seq![line],
        trimmed(line).len() == 0 ==> lines_with_records(seq![line]).len() == 0,
    decreases b.len(),
{
    let one = seq![line];
    assert(one.drop_last() =~= Seq::<Seq<char>>::empty());
    assert(lines_with_records(one.drop_last()) =~= Seq::<Seq<char>>::empty());
    assert(trimmed(line).len() > 0 ==> lines_with_records(one) =~= one);
    if b.len() == 0 {
        assert(a + b =~= a);
        assert(lines_with_records(a) + lines_with_records(b) =~= lines_with_records(a));
    } else {
        every_line_that_is_not_blank_is_given(a, b.drop_last(), line);
        assert((a + b).drop_last() =~= a + b.drop_last());
        assert((a + b).last() == b.last());
        assert(lines_with_records(a + b) =~= lines_with_records(a) + lines_with_records(b));
    }
}

/// Every event of a stream is given and every node, each in the order of the
/// stream, and nothing else is.
pub proof fn every_record_is_given(
    a: Seq<DejaRecord>,
    b: Seq<DejaRecord>,
    event: Box<BoundaryEvent>,
    node: ExecutionGraphNode,
    call: Box<ObservedCall>,
)
    ensures
        stream_events(a + b) == stream_events(a) + stream_events(b),
        stream_nodes(a + b) == stream_nodes(a) + stream_nodes(b),
        stream_events(seq![DejaRecord::BoundaryEvent(event)]) == seq![*event],
        stream_events(seq![DejaRecord::GraphNode(node)]).len() == 0,
        stream_events(seq![DejaRecord::Observed(call)]).len() == 0,
        stream_nodes(seq![DejaRecord::GraphNode(node)]) == seq![node],
        stream_nodes(seq![DejaRecord::BoundaryEvent(event)]).len() == 0,
        stream_nodes(seq![DejaRecord::Observed(call)]).len() == 0,
    decreases a.len(),
{
    let none = Seq::<DejaRecord>::empty();
    assert(stream_events(none) =~= Seq::<BoundaryEvent>::empty());
    assert(stream_nodes(none) =~= Seq::<ExecutionGraphNode>::empty());
    assert(seq![DejaRecord::BoundaryEvent(event)].drop_first() =~= none);
    assert(seq![DejaRecord::GraphNode(node)].drop_first() =~= none);
    assert(seq![DejaRecord::Observed(call)].drop_first() =~= none);
    assert(stream_events(seq![DejaRecord::BoundaryEvent(event)]) =~= seq![*event]);
    assert(stream_nodes(seq![DejaRecord::GraphNode(node)]) =~= seq![node]);
    if a.len() == 0 {
        assert(a + b =~= b);
        assert(stream_events(a) + stream_events(b) =~= stream_events(b));
        assert(stream_nodes(a) + stream_nodes(b) =~= stream_nodes(b));
    } else {
        every_record_is_given(a.drop_first(), b, event, node, call);
        assert((a + b).drop_first() =~= a.drop_first() + b);
        assert((a + b)[0] == a[0]);
        assert(stream_events(a + b) =~= stream_events(a) + stream_events(b));
        assert(stream_nodes(a + b) =~= stream_nodes(a) + stream_nodes(b));
    }
}

/// A hash is read back from its digits, with a plus sign before them or without;
/// a time is read as it is as long as it fits, and a clock that says nothing reads
/// zero.
pub proof fn hashes_and_times_are_read_as_written(n: u64, time: u128)
    ensures
        signed_u64(decimal(n as nat)) == Some(n),
        signed_u64(seq!['+'] + decimal(n as nat)) == Some(n),
        time <= u64::MAX ==> reading_of(Some(time)) == time,
        reading_of(None) == 0,
{
    numbers_are_read_back(n, n, decimal(n as nat));
    let d = decimal(n as nat);
    let s = seq!['+'] + d;
    assert(s.drop_first() =~= d);
    assert(d[0] as u32 >= 0x30);
    assert('+' as u32 == 0x2b);
}

/// Each correlation has positions of its own, and calls without one have theirs.
pub proof fn positions_are_counted_apart(hook: RecordingHook, id: Seq<char>)
    ensures
        hook.upcoming_request(Some(id)) == hook.request_counters.upcoming(id, 0),
        hook.upcoming_request(None) == hook.uncorrelated_counter,
{
}

/// A clock that stands before 1970 reads as the start of it, and any other reads as
/// the nanoseconds since, as far as a number of its size can hold them.
pub proof fn readings_are_the_time_since(n: u128)
    ensures
        reading_of(None) == 0,
        n <= u64::MAX ==> reading_of(Some(n)) == n,
        n < u128::MAX - u64::MAX ==> reading_of(Some((n + u64::MAX + 1) as u128)) == reading_of(
            Some(n),
        ),
{
}

} // verus!
