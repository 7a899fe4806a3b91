//! What a recording holds, in numbers.

use vstd::prelude::*;
use crate::builder::{push_state_key_once, with_key, with_keys};
use crate::event::BoundaryEvent;
use crate::text::{decimal, decimal_text, joined, text_eq, texts};

verus! {

/// How many boundary calls a recording holds, by what they are.
#[derive(Debug, Clone)]
pub struct RecordingMetrics {
    pub total_events: u64,
    pub correlated_events: u64,
    pub uncorrelated_events: u64,
    pub unique_correlation_ids: u64,
    pub unique_traits: u64,
    pub unique_methods: u64,
    pub unique_call_sites: u64,
    pub error_events: u64,
    /// How many calls each boundary has, in the order in which they first occur.
    pub boundaries: Vec<(String, u64)>,
}

/// The correlations of the events that have one.
pub open spec fn correlations(events: Seq<BoundaryEvent>) -> Seq<Seq<char>>
    decreases events.len(),
{
    if events.len() == 0 {
        Seq::empty()
    } else {
        let before = correlations(events.drop_last());
        match events.last().correlation_id {
            Some(id) => before.push(id@),
            None => before,
        }
    }
}

/// The traits of the events.
pub open spec fn trait_names(events: Seq<BoundaryEvent>) -> Seq<Seq<char>> {
    events.map_values(|e: BoundaryEvent| e.trait_name@)
}

/// The methods of the events, with their traits.
pub open spec fn method_names(events: Seq<BoundaryEvent>) -> Seq<Seq<char>> {
    events.map_values(|e: BoundaryEvent| method_label(e))
}

/// A method with its trait.
pub open spec fn method_label(e: BoundaryEvent) -> Seq<char> {
    e.trait_name@ + "::"@ + e.method_name@
}

/// The places the events were called from.
pub open spec fn call_sites(events: Seq<BoundaryEvent>) -> Seq<Seq<char>> {
    events.map_values(|e: BoundaryEvent| site_label(e))
}

/// The place an event was called from.
pub open spec fn site_label(e: BoundaryEvent) -> Seq<char> {
    e.call_file@ + ":"@ + decimal(e.call_line as nat) + ":"@ + decimal(e.call_column as nat)
}

/// The boundaries of the events.
pub open spec fn boundary_names(events: Seq<BoundaryEvent>) -> Seq<Seq<char>> {
    events.map_values(|e: BoundaryEvent| e.boundary@)
}

/// How many different texts there are.
pub open spec fn distinct(s: Seq<Seq<char>>) -> nat {
    s.to_set().len()
}

/// How many events are errors.
pub open spec fn errors(events: Seq<BoundaryEvent>) -> nat {
    events.filter(|e: BoundaryEvent| e.is_error).len()
}

/// How often a text occurs.
pub open spec fn occurrences(s: Seq<Seq<char>>, text: Seq<char>) -> nat
    decreases s.len(),
{
    if s.len() == 0 {
        0
    } else {
        occurrences(s.drop_last(), text) + (if s.last() == text {
            1nat
        } else {
            0nat
        })
    }
}

/// Each text once, in the order in which they first occur.
pub open spec fn once_each(s: Seq<Seq<char>>) -> Seq<Seq<char>> {
    with_keys(Seq::empty(), s)
}

proof fn once_each_holds_them(s: Seq<Seq<char>>)
    ensures
        once_each(s).no_duplicates(),
        once_each(s).to_set() =~= s.to_set(),
        once_each(s).len() == distinct(s),
    decreases s.len(),
{
    if s.len() > 0 {
        let fewer = s.drop_last();
        once_each_holds_them(fewer);
        let before = once_each(fewer);
        let last = s.last();
        assert(once_each(s) == with_key(before, last));
        assert forall|t: Seq<char>| #[trigger]
            once_each(s).to_set().contains(t) <==> s.to_set().contains(t) by {
            assert(before.to_set().contains(t) <==> fewer.to_set().contains(t));
            assert(s =~= fewer.push(last));
            if s.contains(t) && t != last {
                let i = choose|i: int| 0 <= i < s.len() && s[i] == t;
                assert(fewer[i] == t);
            }
            if fewer.contains(t) {
                let i = choose|i: int| 0 <= i < fewer.len() && fewer[i] == t;
                assert(s[i] == t);
            }
            assert(s[s.len() - 1] == last);
            if !before.contains(last) {
                let grown = before.push(last);
                if before.contains(t) {
                    let i = choose|i: int| 0 <= i < before.len() && before[i] == t;
                    assert(grown[i] == t);
                }
                if grown.contains(t) && t != last {
                    let i = choose|i: int| 0 <= i < grown.len() && grown[i] == t;
                    assert(before[i] == t);
                }
                assert(grown[grown.len() - 1] == last);
            }
        }
        assert(once_each(s).to_set() =~= s.to_set());
    } else {
        assert(once_each(s).to_set() =~= s.to_set());
    }
    once_each(s).unique_seq_to_set();
}

#[verifier::loop_isolation(false)]
fn count_text(names: &Vec<String>, text: &str) -> (r: u64)
    ensures
        r == occurrences(texts(names@), text@),
{
    let ghost all = texts(names@);
    let mut n: u64 = 0;
    let mut i: usize = 0;
    proof {
        assert(all.take(0) =~= Seq::<Seq<char>>::empty());
    }
    while i < names.len()
        invariant
            0 <= i <= names@.len(),
            n == occurrences(all.take(i as int), text@),
            n <= i,
        decreases names@.len() - i,
    {
        proof {
            assert(all.take(i as int + 1).drop_last() =~= all.take(i as int));
            assert(all.take(i as int + 1).last() == names@[i as int]@);
        }
        if text_eq(names[i].as_str(), text) {
            n = n + 1;
        }
        i = i + 1;
    }
    proof {
        assert(all.take(all.len() as int) =~= all);
    }
    n
}

/// Counts what a recording holds.
#[verifier::loop_isolation(false)]
#[verifier::rlimit(60)]
pub fn compute_metrics(events: &Vec<BoundaryEvent>) -> (r: RecordingMetrics)
    ensures
        r.total_events == events@.len(),
        r.correlated_events == correlations(events@).len(),
        r.uncorrelated_events == events@.len() - correlations(events@).len(),
        r.unique_correlation_ids == distinct(correlations(events@)),
        r.unique_traits == distinct(trait_names(events@)),
        r.unique_methods == distinct(method_names(events@)),
        r.unique_call_sites == distinct(call_sites(events@)),
        r.error_events == errors(events@),
        r.boundaries@.len() == once_each(boundary_names(events@)).len(),
        forall|i: int|
            0 <= i < r.boundaries@.len() ==> (#[trigger] r.boundaries@[i]).0@ == once_each(
                boundary_names(events@),
            )[i] && r.boundaries@[i].1 == occurrences(
                boundary_names(events@),
                once_each(boundary_names(events@))[i],
            ),
{
    let ghost all = events@;
    let mut correlation_ids: Vec<String> = Vec::new();
    let mut traits: Vec<String> = Vec::new();
    let mut methods: Vec<String> = Vec::new();
    let mut sites: Vec<String> = Vec::new();
    let mut names: Vec<String> = Vec::new();
    let mut every_name: Vec<String> = Vec::new();
    let mut correlated: u64 = 0;
    let mut uncorrelated: u64 = 0;
    let mut error_events: u64 = 0;
    let mut i: usize = 0;
    proof {
        let none = Seq::<BoundaryEvent>::empty();
        assert(all.take(0) =~= none);
        assert(texts(names@) =~= Seq::<Seq<char>>::empty());
        assert(trait_names(none) =~= Seq::<Seq<char>>::empty());
        assert(method_names(none) =~= Seq::<Seq<char>>::empty());
        assert(call_sites(none) =~= Seq::<Seq<char>>::empty());
        assert(boundary_names(none) =~= Seq::<Seq<char>>::empty());
        reveal(Seq::filter);
    }
    while i < events.len()
        invariant
            0 <= i <= events@.len(),
            correlated == correlations(all.take(i as int)).len(),
            uncorrelated == i - correlated,
            correlated <= i,
            error_events == errors(all.take(i as int)),
            error_events <= i,
            texts(correlation_ids@) == once_each(correlations(all.take(i as int))),
            texts(traits@) == once_each(trait_names(all.take(i as int))),
            texts(methods@) == once_each(method_names(all.take(i as int))),
            texts(sites@) == once_each(call_sites(all.take(i as int))),
            texts(names@) == once_each(boundary_names(all.take(i as int))),
            texts(every_name@) == boundary_names(all.take(i as int)),
        decreases events@.len() - i,
    {
        let event = &events[i];
        let ghost before = all.take(i as int);
        let ghost now = all.take(i as int + 1);
        proof {
            assert(now.drop_last() =~= before);
            assert(now.last() == all[i as int]);
            assert(now =~= before.push(all[i as int]));
            grows(before, all[i as int]);
            reveal(Seq::filter);
        }
        match &event.correlation_id {
            Some(id) => {
                proof {
                    assert(correlations(now).drop_last() =~= correlations(before));
                }
                push_state_key_once(&mut correlation_ids, id.clone());
                correlated = correlated + 1;
            },
            None => {
                uncorrelated = uncorrelated + 1;
            },
        }
        push_state_key_once(&mut traits, event.trait_name.clone());
        let method = joined(
            joined(event.trait_name.as_str(), "::").as_str(),
            event.method_name.as_str(),
        );
        push_state_key_once(&mut methods, method);
        let line = decimal_text(event.call_line as u64);
        let column = decimal_text(event.call_column as u64);
        let place = joined(
            joined(
                joined(joined(event.call_file.as_str(), ":").as_str(), line.as_str()).as_str(),
                ":",
            ).as_str(),
            column.as_str(),
        );
        push_state_key_once(&mut sites, place);
        push_state_key_once(&mut names, event.boundary.clone());
        let ghost was = every_name@;
        every_name.push(event.boundary.clone());
        proof {
            assert(texts(every_name@) =~= texts(was).push(event.boundary@));
        }
        if event.is_error {
            error_events = error_events + 1;
        }
        i = i + 1;
    }
    proof {
        assert(all.take(all.len() as int) =~= all);
        once_each_holds_them(correlations(all));
        once_each_holds_them(trait_names(all));
        once_each_holds_them(method_names(all));
        once_each_holds_them(call_sites(all));
    }
    let mut boundaries: Vec<(String, u64)> = Vec::new();
    let mut k: usize = 0;
    while k < names.len()
        invariant
            0 <= k <= names@.len(),
            boundaries@.len() == k,
            forall|j: int|
                0 <= j < k ==> (#[trigger] boundaries@[j]).0@ == once_each(boundary_names(all))[j]
                    && boundaries@[j].1 == occurrences(
                    boundary_names(all),
                    once_each(boundary_names(all))[j],
                ),
        decreases names@.len() - k,
    {
        proof {
            assert(texts(names@)[k as int] == names@[k as int]@);
        }
        let n = count_text(&every_name, names[k].as_str());
        boundaries.push((names[k].clone(), n));
        k = k + 1;
    }
    RecordingMetrics {
        total_events: events.len() as u64,
        correlated_events: correlated,
        uncorrelated_events: uncorrelated,
        unique_correlation_ids: correlation_ids.len() as u64,
        unique_traits: traits.len() as u64,
        unique_methods: methods.len() as u64,
        unique_call_sites: sites.len() as u64,
        error_events,
        boundaries,
    }
}

proof fn grows(before: Seq<BoundaryEvent>, e: BoundaryEvent)
    ensures
        ({
            let now = before.push(e);
            &&& trait_names(now) == trait_names(before).push(e.trait_name@)
            &&& method_names(now) == method_names(before).push(method_label(e))
            &&& call_sites(now) == call_sites(before).push(site_label(e))
            &&& boundary_names(now) == boundary_names(before).push(e.boundary@)
            &&& once_each(trait_names(now)) == with_key(once_each(trait_names(before)), e.trait_name@)
            &&& once_each(method_names(now)) == with_key(
                once_each(method_names(before)),
                method_label(e),
            )
            &&& once_each(call_sites(now)) == with_key(once_each(call_sites(before)), site_label(e))
            &&& once_each(boundary_names(now)) == with_key(
                once_each(boundary_names(before)),
                e.boundary@,
            )
        }),
{
    let now = before.push(e);
    assert(trait_names(now) =~= trait_names(before).push(e.trait_name@));
    assert(method_names(now) =~= method_names(before).push(method_label(e)));
    assert(call_sites(now) =~= call_sites(before).push(site_label(e)));
    assert(boundary_names(now) =~= boundary_names(before).push(e.boundary@));
    assert(trait_names(now).drop_last() =~= trait_names(before));
    assert(method_names(now).drop_last() =~= method_names(before));
    assert(call_sites(now).drop_last() =~= call_sites(before));
    assert(boundary_names(now).drop_last() =~= boundary_names(before));
}

/// One more event counts once, under its own correlation, trait, method, place and
/// boundary, and as an error exactly where it is one; a recording without events
/// counts nothing.
pub proof fn one_more_event_counts_once(events: Seq<BoundaryEvent>, e: BoundaryEvent)
    ensures
        correlations(Seq::empty()).len() == 0,
        errors(Seq::empty()) == 0,
        ({
            let more = events.push(e);
            &&& e.correlation_id is Some ==> correlations(more) == correlations(events).push(
                e.correlation_id->0@,
            )
            &&& e.correlation_id is None ==> correlations(more) == correlations(events)
            &&& trait_names(more) == trait_names(events).push(e.trait_name@)
            &&& method_names(more) == method_names(events).push(
                e.trait_name@ + "::"@ + e.method_name@,
            )
            &&& call_sites(more) == call_sites(events).push(
                e.call_file@ + ":"@ + decimal(e.call_line as nat) + ":"@ + decimal(
                    e.call_column as nat,
                ),
            )
            &&& boundary_names(more) == boundary_names(events).push(e.boundary@)
            &&& errors(more) == errors(events) + (if e.is_error {
                1nat
            } else {
                0nat
            })
        }),
{
    let more = events.push(e);
    grows(events, e);
    assert(more.drop_last() =~= events);
    assert(more.last() == e);
    reveal(Seq::filter);
}

/// The boundaries are given once each, in the order in which they first occur, and
/// each with as many calls as the recording holds of it.
pub proof fn boundaries_are_counted_once_each(s: Seq<Seq<char>>)
    ensures
        once_each(s).no_duplicates(),
        forall|t: Seq<char>| #[trigger] once_each(s).contains(t) <==> s.contains(t),
        distinct(s) == once_each(s).len(),
        forall|i: int, j: int|
            0 <= i < j < once_each(s).len() ==> s.index_of_first(#[trigger] once_each(s)[i]) is Some
                && s.index_of_first(#[trigger] once_each(s)[j]) is Some && s.index_of_first(
                once_each(s)[i],
            )->0 < s.index_of_first(once_each(s)[j])->0,
        forall|t: Seq<char>| #[trigger] occurrences(s, t) == s.to_multiset().count(t),
    decreases s.len(),
{
    broadcast use vstd::seq_lib::group_to_multiset_ensures;

    once_each_holds_them(s);
    assert forall|t: Seq<char>| #[trigger] once_each(s).contains(t) <==> s.contains(t) by {
        assert(once_each(s).to_set().contains(t) <==> s.to_set().contains(t));
    }
    if s.len() > 0 {
        let fewer = s.drop_last();
        let last = s.last();
        boundaries_are_counted_once_each(fewer);
        assert(s =~= fewer.push(last));
        assert(s.to_multiset() =~= fewer.to_multiset().insert(last));
        assert forall|t: Seq<char>| #[trigger] occurrences(s, t) == s.to_multiset().count(t) by {
            assert(occurrences(fewer, t) == fewer.to_multiset().count(t));
        }
        let before = once_each(fewer);
        let now = once_each(s);
        assert(now == with_key(before, last));
        assert forall|i: int, j: int| 0 <= i < j < now.len() implies s.index_of_first(
            #[trigger] now[i],
        ) is Some && s.index_of_first(#[trigger] now[j]) is Some && s.index_of_first(now[i])->0
            < s.index_of_first(now[j])->0 by {
            assert(now.contains(now[i]));
            assert(now.contains(now[j]));
            s.index_of_first_ensures(now[i]);
            s.index_of_first_ensures(now[j]);
            assert(now[i] == before[i]);
            assert(before.contains(before[i]));
            fewer.index_of_first_ensures(now[i]);
            let a = fewer.index_of_first(now[i])->0;
            assert(s[a] == now[i]);
            if j < before.len() {
                assert(before.contains(before[j]));
                fewer.index_of_first_ensures(now[j]);
                let b = fewer.index_of_first(now[j])->0;
                assert(s[b] == now[j]);
                let p = s.index_of_first(now[i])->0;
                let q = s.index_of_first(now[j])->0;
                assert(p <= a);
                assert(fewer[p] == now[i]);
                assert(q <= b);
                assert(fewer[q] == now[j]);
            } else {
                assert(now[j] == last);
                let q = s.index_of_first(now[j])->0;
                if q < fewer.len() {
                    assert(fewer[q] == last);
                    assert(fewer.contains(last));
                    assert(before.contains(last));
                }
                assert(s.index_of_first(now[i])->0 <= a);
            }
        }
    }
}

} // verus!
