//! Searching a recording, and counting what it holds.

use vstd::prelude::*;
use crate::event::{correlation_matches, in_correlation, BoundaryEvent};
use crate::exact_bytes::{closed_text, closed_texts_are_told_apart, tails_of_one_front};
use crate::fnv::{
    fnv, fnv1a_str, fnv1a_u64, fnv_of_two_runs, fnv_text, hashes_stay_apart, le_bytes,
    numbers_are_told_apart, FNV_OFFSET_BASIS,
};
use crate::json::{json_eq, Json};
use crate::text::text_eq;

verus! {

/// How closely a recorded event matches.
#[derive(Debug, Clone, Copy, PartialEq, Eq, Structural)]
pub enum ReplayConfidence {
    /// The same file, line and arguments.
    Exact,
    /// The same file and arguments, on another line.
    LineShifted,
    /// The same file and line, with other arguments.
    ArgsChanged,
}

/// A call to find in a recording.
#[derive(Debug, Clone, Copy)]
pub struct ReplayQuery<'a> {
    pub correlation_id: Option<&'a str>,
    pub boundary: &'a str,
    pub trait_name: &'a str,
    pub method_name: &'a str,
    pub call_file: &'a str,
    pub call_line: u32,
    pub args: &'a Json,
}

/// An event that was found.
#[derive(Debug, Clone, Copy)]
pub struct ReplayMatch<'a> {
    pub event: &'a BoundaryEvent,
    pub confidence: ReplayConfidence,
    pub reason: &'static str,
}

/// Whether an event is of the method that is looked for, in its correlation.
pub open spec fn is_candidate(event: BoundaryEvent, query: ReplayQuery<'_>) -> bool {
    &&& in_correlation(event, query.correlation_id.deep_view())
    &&& event.boundary@ == query.boundary@
    &&& event.trait_name@ == query.trait_name@
    &&& event.method_name@ == query.method_name@
}

/// Whether an event matches as closely as that.
pub open spec fn matches_as(
    event: BoundaryEvent,
    query: ReplayQuery<'_>,
    confidence: ReplayConfidence,
) -> bool {
    &&& is_candidate(event, query)
    &&& event.call_file@ == query.call_file@
    &&& match confidence {
        ReplayConfidence::Exact => event.call_line == query.call_line && json_eq(
            event.args@,
            query.args@,
        ),
        ReplayConfidence::LineShifted => json_eq(event.args@, query.args@),
        ReplayConfidence::ArgsChanged => event.call_line == query.call_line,
    }
}

/// The first event that matches as closely as that.
pub open spec fn first_as(
    events: Seq<BoundaryEvent>,
    query: ReplayQuery<'_>,
    confidence: ReplayConfidence,
) -> Option<BoundaryEvent>
    decreases events.len(),
{
    if events.len() == 0 {
        None
    } else if matches_as(events[0], query, confidence) {
        Some(events[0])
    } else {
        first_as(events.drop_first(), query, confidence)
    }
}

/// The event that matches best: exactly, else on another line, else with other
/// arguments.
pub open spec fn best_match(events: Seq<BoundaryEvent>, query: ReplayQuery<'_>) -> Option<
    (BoundaryEvent, ReplayConfidence),
> {
    match first_as(events, query, ReplayConfidence::Exact) {
        Some(e) => Some((e, ReplayConfidence::Exact)),
        None => match first_as(events, query, ReplayConfidence::LineShifted) {
            Some(e) => Some((e, ReplayConfidence::LineShifted)),
            None => match first_as(events, query, ReplayConfidence::ArgsChanged) {
                Some(e) => Some((e, ReplayConfidence::ArgsChanged)),
                None => None,
            },
        },
    }
}

/// Why an event matches, in words.
pub open spec fn match_reason(confidence: ReplayConfidence) -> Seq<char> {
    match confidence {
        ReplayConfidence::Exact => "exact call-site and args match"@,
        ReplayConfidence::LineShifted => "same call file and args, line shifted"@,
        ReplayConfidence::ArgsChanged => "same call-site, args changed"@,
    }
}

/// Mixes one event into a call-graph fingerprint.
pub open spec fn fingerprint_step(hash: u64, event: BoundaryEvent) -> u64 {
    let h = fnv(hash, le_bytes(event.request_sequence));
    let h = fnv_text(h, event.boundary@);
    let h = fnv_text(h, event.trait_name@);
    let h = fnv_text(h, event.method_name@);
    let h = fnv_text(h, event.call_file@);
    let h = fnv(h, le_bytes(event.call_line as u64));
    fnv(h, le_bytes(event.call_column as u64))
}

/// The fingerprint of the calls of a correlation, in recorded order: their
/// positions, what they call and where. What they were given does not enter.
pub open spec fn fingerprint(events: Seq<BoundaryEvent>, correlation_id: Option<Seq<char>>) -> u64
    decreases events.len(),
{
    if events.len() == 0 {
        FNV_OFFSET_BASIS
    } else {
        let before = fingerprint(events.drop_last(), correlation_id);
        if in_correlation(events.last(), correlation_id) {
            fingerprint_step(before, events.last())
        } else {
            before
        }
    }
}

/// A recording, to search.
#[derive(Debug, Clone)]
pub struct ReplayIndex {
    pub recorded: Vec<BoundaryEvent>,
}

impl ReplayIndex {
    pub fn new(events: Vec<BoundaryEvent>) -> (r: ReplayIndex)
        ensures
            r.recorded == events,
    {
        ReplayIndex { recorded: events }
    }

    /// The recorded events.
    pub fn events(&self) -> (r: &Vec<BoundaryEvent>)
        ensures
            *r == self.recorded,
    {
        &self.recorded
    }

    /// The event that matches best.
    pub fn find(&self, query: ReplayQuery<'_>) -> (r: Option<ReplayMatch<'_>>)
        ensures
            match r {
                Some(found) => best_match(self.recorded@, query) == Some(
                    (*found.event, found.confidence),
                ) && found.reason@ == match_reason(found.confidence),
                None => best_match(self.recorded@, query) is None,
            },
    {
        if let Some(event) = self.find_by(query, ReplayConfidence::Exact) {
            return Some(
                ReplayMatch {
                    event,
                    confidence: ReplayConfidence::Exact,
                    reason: "exact call-site and args match",
                },
            );
        }
        if let Some(event) = self.find_by(query, ReplayConfidence::LineShifted) {
            return Some(
                ReplayMatch {
                    event,
                    confidence: ReplayConfidence::LineShifted,
                    reason: "same call file and args, line shifted",
                },
            );
        }
        if let Some(event) = self.find_by(query, ReplayConfidence::ArgsChanged) {
            return Some(
                ReplayMatch {
                    event,
                    confidence: ReplayConfidence::ArgsChanged,
                    reason: "same call-site, args changed",
                },
            );
        }
        None
    }

    /// The first event that matches as closely as that.
    #[verifier::loop_isolation(false)]
    fn find_by(&self, query: ReplayQuery<'_>, confidence: ReplayConfidence) -> (r: Option<
        &BoundaryEvent,
    >)
        ensures
            match r {
                Some(event) => first_as(self.recorded@, query, confidence) == Some(*event),
                None => first_as(self.recorded@, query, confidence) is None,
            },
    {
        let ghost all = self.recorded@;
        let mut i: usize = 0;
        proof {
            assert(all.skip(0) =~= all);
        }
        while i < self.recorded.len()
            invariant
                0 <= i <= all.len(),
                first_as(all, query, confidence) == first_as(
                    all.skip(i as int),
                    query,
                    confidence,
                ),
            decreases all.len() - i,
        {
            let event = &self.recorded[i];
            proof {
                assert(all.skip(i as int)[0] == all[i as int]);
                assert(all.skip(i as int).drop_first() =~= all.skip(i as int + 1));
            }
            if correlation_matches(event, query.correlation_id) && text_eq(
                event.boundary.as_str(),
                query.boundary,
            ) && text_eq(event.trait_name.as_str(), query.trait_name) && text_eq(
                event.method_name.as_str(),
                query.method_name,
            ) && text_eq(event.call_file.as_str(), query.call_file) && (match confidence {
                ReplayConfidence::Exact => event.call_line == query.call_line && event.args.equals(
                    query.args,
                ),
                ReplayConfidence::LineShifted => event.args.equals(query.args),
                ReplayConfidence::ArgsChanged => event.call_line == query.call_line,
            }) {
                return Some(event);
            }
            i = i + 1;
        }
        None
    }

    /// The fingerprint of the calls of a correlation.
    #[verifier::loop_isolation(false)]
    pub fn call_graph_fingerprint(&self, correlation_id: Option<&str>) -> (r: u64)
        ensures
            r == fingerprint(self.recorded@, correlation_id.deep_view()),
    {
        let ghost all = self.recorded@;
        let ghost c = correlation_id.deep_view();
        let mut hash: u64 = FNV_OFFSET_BASIS;
        let mut i: usize = 0;
        proof {
            assert(all.take(0) =~= Seq::<BoundaryEvent>::empty());
        }
        while i < self.recorded.len()
            invariant
                0 <= i <= all.len(),
                hash == fingerprint(all.take(i as int), c),
            decreases all.len() - i,
        {
            let event = &self.recorded[i];
            proof {
                assert(all.take(i as int + 1).drop_last() =~= all.take(i as int));
                assert(all.take(i as int + 1).last() == all[i as int]);
            }
            if correlation_matches(event, correlation_id) {
                hash = fnv1a_u64(hash, event.request_sequence);
                hash = fnv1a_str(hash, event.boundary.as_str());
                hash = fnv1a_str(hash, event.trait_name.as_str());
                hash = fnv1a_str(hash, event.method_name.as_str());
                hash = fnv1a_str(hash, event.call_file.as_str());
                hash = fnv1a_u64(hash, event.call_line as u64);
                hash = fnv1a_u64(hash, event.call_column as u64);
            }
            i = i + 1;
        }
        proof {
            assert(all.take(all.len() as int) =~= all);
        }
        hash
    }
}

/// An exact match is never passed over for a looser one.
pub proof fn exact_matches_win(events: Seq<BoundaryEvent>, query: ReplayQuery<'_>, i: int)
    requires
        0 <= i < events.len(),
        matches_as(events[i], query, ReplayConfidence::Exact),
    ensures
        best_match(events, query) matches Some((event, confidence)) && confidence is Exact
            && matches_as(event, query, ReplayConfidence::Exact),
    decreases events.len(),
{
    if !matches_as(events[0], query, ReplayConfidence::Exact) {
        exact_matches_win(events.drop_first(), query, i - 1);
    }
}

proof fn the_first_as_close(
    events: Seq<BoundaryEvent>,
    query: ReplayQuery<'_>,
    confidence: ReplayConfidence,
)
    ensures
        match first_as(events, query, confidence) {
            Some(e) => exists|i: int|
                0 <= i < events.len() && e == #[trigger] events[i] && matches_as(
                    e,
                    query,
                    confidence,
                ) && forall|h: int|
                    0 <= h < i ==> !matches_as(#[trigger] events[h], query, confidence),
            None => forall|h: int|
                0 <= h < events.len() ==> !matches_as(#[trigger] events[h], query, confidence),
        },
    decreases events.len(),
{
    if events.len() > 0 && !matches_as(events[0], query, confidence) {
        let rest = events.drop_first();
        the_first_as_close(rest, query, confidence);
        if first_as(rest, query, confidence) is Some {
            let e = first_as(rest, query, confidence)->0;
            let i = choose|i: int|
                0 <= i < rest.len() && e == #[trigger] rest[i] && matches_as(e, query, confidence)
                    && forall|h: int|
                    0 <= h < i ==> !matches_as(#[trigger] rest[h], query, confidence);
            assert(events[i + 1] == e);
            assert forall|h: int| 0 <= h < i + 1 implies !matches_as(
                #[trigger] events[h],
                query,
                confidence,
            ) by {
                if h > 0 {
                    assert(rest[h - 1] == events[h]);
                }
            }
        } else {
            assert forall|h: int| 0 <= h < events.len() implies !matches_as(
                #[trigger] events[h],
                query,
                confidence,
            ) by {
                if h > 0 {
                    assert(rest[h - 1] == events[h]);
                }
            }
        }
    }
}

/// What is found for a query is a recorded event of the correlation, the boundary,
/// the trait, the method and the file that were asked for, with the same line and
/// arguments, or with the same arguments, or on the same line, as it is said; and
/// a looser match is given only where no event matches more closely.
pub proof fn matches_are_of_the_query(events: Seq<BoundaryEvent>, query: ReplayQuery<'_>)
    ensures
        best_match(events, query) matches Some((e, confidence)) ==> {
            &&& events.contains(e)
            &&& e.correlation_id.deep_view() == query.correlation_id.deep_view()
            &&& e.boundary@ == query.boundary@
            &&& e.trait_name@ == query.trait_name@
            &&& e.method_name@ == query.method_name@
            &&& e.call_file@ == query.call_file@
            &&& confidence is Exact ==> e.call_line == query.call_line && json_eq(
                e.args@,
                query.args@,
            )
            &&& confidence is LineShifted ==> json_eq(e.args@, query.args@)
            &&& confidence is ArgsChanged ==> e.call_line == query.call_line
        },
        forall|i: int|
            #![trigger events[i]]
            0 <= i < events.len() && events[i].correlation_id.deep_view()
                == query.correlation_id.deep_view() && events[i].boundary@ == query.boundary@
                && events[i].trait_name@ == query.trait_name@ && events[i].method_name@
                == query.method_name@ && events[i].call_file@ == query.call_file@ ==> {
                &&& events[i].call_line == query.call_line && json_eq(events[i].args@, query.args@)
                    ==> (best_match(events, query) matches Some((_, c)) && c is Exact)
                &&& json_eq(events[i].args@, query.args@) ==> (best_match(events, query) matches Some((_, c)) && !(c is ArgsChanged))
                &&& events[i].call_line == query.call_line ==> best_match(events, query) is Some
            },
{
    the_first_as_close(events, query, ReplayConfidence::Exact);
    the_first_as_close(events, query, ReplayConfidence::LineShifted);
    the_first_as_close(events, query, ReplayConfidence::ArgsChanged);
    assert forall|i: int|
        #![trigger events[i]]
        0 <= i < events.len() && events[i].correlation_id.deep_view()
            == query.correlation_id.deep_view() && events[i].boundary@ == query.boundary@
            && events[i].trait_name@ == query.trait_name@ && events[i].method_name@
            == query.method_name@ && events[i].call_file@ == query.call_file@ implies {
        &&& events[i].call_line == query.call_line && json_eq(events[i].args@, query.args@)
            ==> (best_match(events, query) matches Some((_, c)) && c is Exact)
        &&& json_eq(events[i].args@, query.args@) ==> (best_match(events, query) matches Some((_, c)) && !(c is ArgsChanged))
        &&& events[i].call_line == query.call_line ==> best_match(events, query) is Some
    } by {
        if events[i].call_line == query.call_line && json_eq(events[i].args@, query.args@) {
            assert(matches_as(events[i], query, ReplayConfidence::Exact));
        }
        if json_eq(events[i].args@, query.args@) {
            assert(matches_as(events[i], query, ReplayConfidence::LineShifted));
        }
        if events[i].call_line == query.call_line {
            assert(matches_as(events[i], query, ReplayConfidence::ArgsChanged));
        }
    }
}

/// What a call adds to the fingerprint: its position, what it calls, and where.
pub open spec fn call_bytes(e: BoundaryEvent) -> Seq<u8> {
    le_bytes(e.request_sequence) + (closed_text(e.boundary@) + (closed_text(e.trait_name@) + (
    closed_text(e.method_name@) + (closed_text(e.call_file@) + (le_bytes(e.call_line as u64)
        + le_bytes(e.call_column as u64))))))
}

/// The calls of a correlation and no others enter its fingerprint, each by bytes
/// that tell apart every two calls at different positions, of different methods or
/// from different places; and no call is lost behind a later one.
pub proof fn fingerprints_read_every_call(
    events: Seq<BoundaryEvent>,
    other: Seq<BoundaryEvent>,
    correlation_id: Option<Seq<char>>,
    e: BoundaryEvent,
    f: BoundaryEvent,
)
    ensures
        e.correlation_id.deep_view() == correlation_id ==> fingerprint(
            events.push(e),
            correlation_id,
        ) == fnv(fingerprint(events, correlation_id), call_bytes(e)),
        e.correlation_id.deep_view() != correlation_id ==> fingerprint(
            events.push(e),
            correlation_id,
        ) == fingerprint(events, correlation_id),
        fingerprint(events.push(e), correlation_id) == fingerprint(other.push(e), correlation_id)
            ==> fingerprint(events, correlation_id) == fingerprint(other, correlation_id),
        call_bytes(e) == call_bytes(f) ==> e.request_sequence == f.request_sequence && e.boundary@
            == f.boundary@ && e.trait_name@ == f.trait_name@ && e.method_name@ == f.method_name@
            && e.call_file@ == f.call_file@ && e.call_line == f.call_line && e.call_column
            == f.call_column,
{
    assert(events.push(e).drop_last() =~= events);
    assert(other.push(e).drop_last() =~= other);
    step_reads_the_call(fingerprint(events, correlation_id), e);
    step_reads_the_call(fingerprint(other, correlation_id), e);
    if e.correlation_id.deep_view() == correlation_id && fingerprint(
        events.push(e),
        correlation_id,
    ) == fingerprint(other.push(e), correlation_id) {
        hashes_stay_apart(
            fingerprint(events, correlation_id),
            fingerprint(other, correlation_id),
            call_bytes(e),
        );
    }
    if call_bytes(e) == call_bytes(f) {
        calls_are_told_apart(e, f);
    }
}

proof fn step_reads_the_call(hash: u64, e: BoundaryEvent)
    ensures
        fingerprint_step(hash, e) == fnv(hash, call_bytes(e)),
{
    let line = le_bytes(e.call_line as u64);
    let column = le_bytes(e.call_column as u64);
    let place = line + column;
    let file = closed_text(e.call_file@) + place;
    let method = closed_text(e.method_name@) + file;
    let owner = closed_text(e.trait_name@) + method;
    let all = closed_text(e.boundary@) + owner;
    let h1 = fnv(hash, le_bytes(e.request_sequence));
    let h2 = fnv_text(h1, e.boundary@);
    let h3 = fnv_text(h2, e.trait_name@);
    let h4 = fnv_text(h3, e.method_name@);
    let h5 = fnv_text(h4, e.call_file@);
    fnv_of_two_runs(hash, le_bytes(e.request_sequence), all);
    fnv_of_two_runs(h1, closed_text(e.boundary@), owner);
    fnv_of_two_runs(h2, closed_text(e.trait_name@), method);
    fnv_of_two_runs(h3, closed_text(e.method_name@), file);
    fnv_of_two_runs(h4, closed_text(e.call_file@), place);
    fnv_of_two_runs(h5, line, column);
}

proof fn calls_are_told_apart(e: BoundaryEvent, f: BoundaryEvent)
    requires
        call_bytes(e) == call_bytes(f),
    ensures
        e.request_sequence == f.request_sequence,
        e.boundary@ == f.boundary@,
        e.trait_name@ == f.trait_name@,
        e.method_name@ == f.method_name@,
        e.call_file@ == f.call_file@,
        e.call_line == f.call_line,
        e.call_column == f.call_column,
{
    let p = le_bytes(e.call_line as u64) + le_bytes(e.call_column as u64);
    let q = le_bytes(f.call_line as u64) + le_bytes(f.call_column as u64);
    let p1 = closed_text(e.call_file@) + p;
    let q1 = closed_text(f.call_file@) + q;
    let p2 = closed_text(e.method_name@) + p1;
    let q2 = closed_text(f.method_name@) + q1;
    let p3 = closed_text(e.trait_name@) + p2;
    let q3 = closed_text(f.trait_name@) + q2;
    let p4 = closed_text(e.boundary@) + p3;
    let q4 = closed_text(f.boundary@) + q3;
    numbers_lead(e.request_sequence, f.request_sequence, p4, q4);
    closed_texts_are_told_apart(e.boundary@, f.boundary@, p3, q3);
    closed_texts_are_told_apart(e.trait_name@, f.trait_name@, p2, q2);
    closed_texts_are_told_apart(e.method_name@, f.method_name@, p1, q1);
    closed_texts_are_told_apart(e.call_file@, f.call_file@, p, q);
    numbers_lead(
        e.call_line as u64,
        f.call_line as u64,
        le_bytes(e.call_column as u64),
        le_bytes(f.call_column as u64),
    );
    numbers_are_told_apart(e.call_column as u64, f.call_column as u64);
}

proof fn numbers_lead(n: u64, m: u64, x: Seq<u8>, y: Seq<u8>)
    requires
        le_bytes(n) + x == le_bytes(m) + y,
    ensures
        n == m,
        x == y,
{
    assert(le_bytes(n) =~= (le_bytes(n) + x).take(8));
    assert(le_bytes(m) =~= (le_bytes(m) + y).take(8));
    numbers_are_told_apart(n, m);
    tails_of_one_front(le_bytes(n), x, y);
}

} // verus!
