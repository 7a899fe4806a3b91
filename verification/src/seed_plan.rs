//! The preconditions of a correlation, out of what it recorded.

use vstd::prelude::*;
use crate::db_key::{db_table_from_event_args, named_table};
use crate::event::{
    correlation_matches, in_correlation, BoundaryEvent, EffectKind, OperationKind, ReturnSemantics,
};
use crate::json::{Json, JsonView};
use crate::observed::either;
use crate::seed::{filled, SeedEntry, SeedEntryView, SeedOrigin, SeedPlan};
use crate::state_key::{canonical, canonical_state_key_wire, key_of, table_of, StateKey};
use crate::table::{Table, TableKey};
use crate::text::{opt_string, text_eq, texts};

verus! {

/// Whether a call read a key of Redis that holds nothing: the boundary declares
/// Redis, and the result is the text `Null`.
pub open spec fn redis_null_read(e: BoundaryEvent) -> bool {
    &&& e.declaration matches Some(d) && d.effect == Some(EffectKind::Redis)
    &&& e.read_set@.len() > 0
    &&& e.result@.text() == Some("Null"@)
}

/// Whether a boundary declares that it may give nothing.
pub open spec fn may_give_nothing(e: BoundaryEvent) -> bool {
    e.declaration matches Some(d) && d.return_shape == Some(ReturnSemantics::Optional)
}

/// Whether a call found nothing: null, nothing in Redis, or a success of null
/// where the boundary declares that it may give nothing.
pub open spec fn found_nothing(e: BoundaryEvent) -> bool {
    ||| e.result@ is Null
    ||| redis_null_read(e)
    ||| may_give_nothing(e) && e.result@.member("Ok"@) == Some(JsonView::Null)
}

fn is_declared_redis_null_read(event: &BoundaryEvent) -> (r: bool)
    ensures
        r == redis_null_read(*event),
{
    let declared = match &event.declaration {
        Some(d) => matches!(d.effect, Some(EffectKind::Redis)),
        None => false,
    };
    declared && event.read_set.len() > 0 && event.result.is_text("Null")
}

/// Whether a call found nothing.
pub fn is_miss_result(event: &BoundaryEvent) -> (r: bool)
    ensures
        r == found_nothing(*event),
{
    if event.result.is_null() {
        return true;
    }
    if is_declared_redis_null_read(event) {
        return true;
    }
    let optional = match &event.declaration {
        Some(d) => matches!(d.return_shape, Some(ReturnSemantics::Optional)),
        None => false,
    };
    if !optional {
        return false;
    }
    match event.result.get("Ok") {
        Some(v) => v.is_null(),
        None => false,
    }
}

/// Whether a call creates rows.
pub open spec fn creates(e: BoundaryEvent) -> bool {
    e.declaration matches Some(d) && d.op == Some(OperationKind::Create)
}

/// Whether a call creates rows.
pub fn is_db_create_event(event: &BoundaryEvent) -> (r: bool)
    ensures
        r == creates(*event),
{
    match &event.declaration {
        Some(d) => matches!(d.op, Some(OperationKind::Create)),
        None => false,
    }
}

/// The table a call names, in its arguments or in its request.
pub open spec fn event_table(e: BoundaryEvent) -> Option<Seq<char>> {
    either(named_table(e.args@), named_table(e.request@))
}

/// The table a state key belongs to.
pub open spec fn key_table(key: Seq<char>) -> Option<Seq<char>> {
    match key_of(key) {
        Ok(k) => table_of(k),
        Err(_) => None,
    }
}

/// The first table that one of the keys belongs to.
pub open spec fn first_table(keys: Seq<Seq<char>>) -> Option<Seq<char>>
    decreases keys.len(),
{
    if keys.len() == 0 {
        None
    } else {
        either(key_table(keys[0]), first_table(keys.drop_first()))
    }
}

/// The table a call reads a key of.
pub open spec fn read_table(e: BoundaryEvent, key: Seq<char>) -> Option<Seq<char>> {
    either(key_table(key), event_table(e))
}

/// The table a call creates rows in.
pub open spec fn created_table(e: BoundaryEvent) -> Option<Seq<char>> {
    either(event_table(e), first_table(texts(e.write_set@)))
}

fn db_event_table(event: &BoundaryEvent) -> (r: Option<String>)
    ensures
        r.deep_view() == event_table(*event),
{
    match db_table_from_event_args(&event.args) {
        Some(table) => Some(table.to_owned()),
        None => opt_string(db_table_from_event_args(&event.request)),
    }
}

/// The table a state key belongs to.
pub fn db_table_for_state_key(key: &str) -> (r: Option<String>)
    ensures
        r.deep_view() == key_table(key@),
{
    match StateKey::parse(key) {
        Ok(k) => opt_string(k.db_table()),
        Err(_) => None,
    }
}

fn db_read_table(event: &BoundaryEvent, key: &str) -> (r: Option<String>)
    ensures
        r.deep_view() == read_table(*event, key@),
{
    match db_table_for_state_key(key) {
        Some(table) => Some(table),
        None => db_event_table(event),
    }
}

#[verifier::loop_isolation(false)]
fn db_created_table(event: &BoundaryEvent) -> (r: Option<String>)
    ensures
        r.deep_view() == created_table(*event),
{
    if let Some(table) = db_event_table(event) {
        return Some(table);
    }
    let ghost all = texts(event.write_set@);
    let mut i: usize = 0;
    proof {
        assert(all.skip(0) =~= all);
    }
    while i < event.write_set.len()
        invariant
            0 <= i <= event.write_set@.len(),
            first_table(all) == first_table(all.skip(i as int)),
        decreases event.write_set@.len() - i,
    {
        proof {
            assert(all.skip(i as int)[0] == event.write_set@[i as int]@);
            assert(all.skip(i as int).drop_first() =~= all.skip(i as int + 1));
        }
        if let Some(table) = db_table_for_state_key(event.write_set[i].as_str()) {
            return Some(table);
        }
        i = i + 1;
    }
    None
}

/// Whether a call writes a key, in its one written form.
pub open spec fn writes_key(e: BoundaryEvent, key: Seq<char>) -> bool {
    exists|j: int| 0 <= j < e.write_set@.len() && canonical(#[trigger] e.write_set@[j]@) == key
}

#[verifier::loop_isolation(false)]
fn writes_the_key(event: &BoundaryEvent, canonical_key: &str) -> (r: bool)
    ensures
        r == writes_key(*event, canonical_key@),
{
    let mut i: usize = 0;
    while i < event.write_set.len()
        invariant
            0 <= i <= event.write_set@.len(),
            forall|j: int|
                0 <= j < i ==> canonical(#[trigger] event.write_set@[j]@) != canonical_key@,
        decreases event.write_set@.len() - i,
    {
        let wire = canonical_state_key_wire(event.write_set[i].as_str());
        if text_eq(wire.as_str(), canonical_key) {
            proof {
                assert(canonical(event.write_set@[i as int]@) == canonical_key@);
            }
            return true;
        }
        i = i + 1;
    }
    false
}

/// The image of the state a call read: what it found, where it changed the very
/// row it read; else what it left.
pub open spec fn seed_image(e: BoundaryEvent, key: Seq<char>) -> Option<JsonView> {
    if e.boundary@ == "db"@ && writes_key(e, key) {
        e.pre_image.deep_view()
    } else {
        e.result_image.deep_view()
    }
}

fn image_copy(a: &Option<Json>) -> (r: Option<Json>)
    ensures
        r.deep_view() == a.deep_view(),
{
    match a {
        Some(v) => Some(v.clone()),
        None => None,
    }
}

fn preferred_seed_image(event: &BoundaryEvent, canonical_key: &str) -> (r: Option<Json>)
    ensures
        r.deep_view() == seed_image(*event, canonical_key@),
{
    if text_eq(event.boundary.as_str(), "db") && writes_the_key(event, canonical_key) {
        image_copy(&event.pre_image)
    } else {
        image_copy(&event.result_image)
    }
}

/// The seed a call gives for a key it read.
pub open spec fn seed_of(e: BoundaryEvent, key: Seq<char>) -> SeedEntryView {
    SeedEntryView {
        boundary: e.boundary@,
        key,
        value: e.result@,
        image: seed_image(e, key),
        origin: SeedOrigin::Recording,
    }
}

/// Whether the calls of a correlation have written a key of a boundary.
pub open spec fn written(
    events: Seq<BoundaryEvent>,
    correlation_id: Option<Seq<char>>,
    boundary: Seq<char>,
    key: Seq<char>,
) -> bool {
    exists|i: int|
        0 <= i < events.len() && in_correlation(#[trigger] events[i], correlation_id)
            && events[i].boundary@ == boundary && writes_key(events[i], key)
}

/// Whether the calls of a correlation have created rows in a table.
pub open spec fn created(
    events: Seq<BoundaryEvent>,
    correlation_id: Option<Seq<char>>,
    table: Seq<char>,
) -> bool {
    exists|i: int|
        0 <= i < events.len() && in_correlation(#[trigger] events[i], correlation_id)
            && events[i].boundary@ == "db"@ && creates(events[i]) && created_table(events[i])
            == Some(table)
}

/// Whether the table a call reads a key of was created by the calls before it.
pub open spec fn reads_own_rows(
    history: Seq<BoundaryEvent>,
    correlation_id: Option<Seq<char>>,
    e: BoundaryEvent,
    key: Seq<char>,
) -> bool {
    &&& e.boundary@ == "db"@
    &&& read_table(e, key) matches Some(table) && created(history, correlation_id, table)
}

/// Whether a call shows what a key held before the correlation changed it: it
/// found something under the key, no call before it wrote the key, and the key
/// is not of a table in which a call before it created rows. What the call
/// itself writes does not matter.
pub open spec fn shows(
    history: Seq<BoundaryEvent>,
    correlation_id: Option<Seq<char>>,
    e: BoundaryEvent,
    boundary: Seq<char>,
    key: Seq<char>,
) -> bool {
    &&& in_correlation(e, correlation_id)
    &&& e.boundary@ == boundary
    &&& !e.is_error
    &&& !found_nothing(e)
    &&& !written(history, correlation_id, boundary, key)
    &&& reads_freely(history, correlation_id, e, key, e.read_set@.len() as int)
}

/// Whether one of the first `n` keys a call reads is this key, and not of a
/// table in which the calls before it created rows.
pub open spec fn reads_freely(
    history: Seq<BoundaryEvent>,
    correlation_id: Option<Seq<char>>,
    e: BoundaryEvent,
    key: Seq<char>,
    n: int,
) -> bool {
    exists|j: int|
        0 <= j < n && canonical(#[trigger] e.read_set@[j]@) == key && !reads_own_rows(
            history,
            correlation_id,
            e,
            e.read_set@[j]@,
        )
}

/// The first call of a correlation that shows what a key held before.
pub open spec fn first_shown(
    events: Seq<BoundaryEvent>,
    correlation_id: Option<Seq<char>>,
    boundary: Seq<char>,
    key: Seq<char>,
) -> Option<BoundaryEvent>
    decreases events.len(),
{
    if events.len() == 0 {
        None
    } else {
        let before = first_shown(events.drop_last(), correlation_id, boundary, key);
        if before is Some {
            before
        } else if shows(events.drop_last(), correlation_id, events.last(), boundary, key) {
            Some(events.last())
        } else {
            None
        }
    }
}

/// The precondition of a key: what the first call found that shows it.
pub open spec fn precondition(
    events: Seq<BoundaryEvent>,
    correlation_id: Option<Seq<char>>,
    boundary: Seq<char>,
    key: Seq<char>,
) -> Option<SeedEntryView> {
    match first_shown(events, correlation_id, boundary, key) {
        Some(e) => Some(seed_of(e, key)),
        None => None,
    }
}

/// A pair of texts as a key.
pub struct PairKey {
    pub first: String,
    pub second: String,
}

impl TableKey for PairKey {
    type Key = (Seq<char>, Seq<char>);

    open spec fn key(&self) -> (Seq<char>, Seq<char>) {
        (self.first@, self.second@)
    }

    fn same_key(&self, other: &PairKey) -> (r: bool) {
        text_eq(self.first.as_str(), other.first.as_str()) && text_eq(
            self.second.as_str(),
            other.second.as_str(),
        )
    }
}

/// Whether a table of pairs holds what the calls of a correlation wrote.
spec fn holds_written(
    t: Table<PairKey, ()>,
    events: Seq<BoundaryEvent>,
    correlation_id: Option<Seq<char>>,
) -> bool {
    forall|b: Seq<char>, k: Seq<char>| #[trigger]
        t.at((b, k)) is Some <==> written(events, correlation_id, b, k)
}

/// Whether a table of pairs holds the tables in which the calls of a
/// correlation created rows.
spec fn holds_created(
    t: Table<PairKey, ()>,
    events: Seq<BoundaryEvent>,
    correlation_id: Option<Seq<char>>,
) -> bool {
    forall|table: Seq<char>| #[trigger]
        t.at(("db"@, table)) is Some <==> created(events, correlation_id, table)
}

proof fn one_more_writes(
    events: Seq<BoundaryEvent>,
    correlation_id: Option<Seq<char>>,
    e: BoundaryEvent,
    b: Seq<char>,
    k: Seq<char>,
)
    ensures
        written(events.push(e), correlation_id, b, k) <==> written(events, correlation_id, b, k) || (
        in_correlation(e, correlation_id) && e.boundary@ == b && writes_key(e, k)),
{
    let more = events.push(e);
    if written(events, correlation_id, b, k) {
        let i = choose|i: int|
            0 <= i < events.len() && in_correlation(#[trigger] events[i], correlation_id)
                && events[i].boundary@ == b && writes_key(events[i], k);
        assert(more[i] == events[i]);
    }
    if in_correlation(e, correlation_id) && e.boundary@ == b && writes_key(e, k) {
        assert(more[events.len() as int] == e);
    }
    if written(more, correlation_id, b, k) {
        let i = choose|i: int|
            0 <= i < more.len() && in_correlation(#[trigger] more[i], correlation_id)
                && more[i].boundary@ == b && writes_key(more[i], k);
        if i < events.len() {
            assert(events[i] == more[i]);
        }
    }
}

proof fn one_more_creates(
    events: Seq<BoundaryEvent>,
    correlation_id: Option<Seq<char>>,
    e: BoundaryEvent,
    table: Seq<char>,
)
    ensures
        created(events.push(e), correlation_id, table) <==> created(events, correlation_id, table) || (
        in_correlation(e, correlation_id) && e.boundary@ == "db"@ && creates(e) && created_table(e)
            == Some(table)),
{
    let more = events.push(e);
    if created(events, correlation_id, table) {
        let i = choose|i: int|
            0 <= i < events.len() && in_correlation(#[trigger] events[i], correlation_id)
                && events[i].boundary@ == "db"@ && creates(events[i]) && created_table(events[i])
                == Some(table);
        assert(more[i] == events[i]);
    }
    if in_correlation(e, correlation_id) && e.boundary@ == "db"@ && creates(e) && created_table(e)
        == Some(table) {
        assert(more[events.len() as int] == e);
    }
    if created(more, correlation_id, table) {
        let i = choose|i: int|
            0 <= i < more.len() && in_correlation(#[trigger] more[i], correlation_id)
                && more[i].boundary@ == "db"@ && creates(more[i]) && created_table(more[i]) == Some(
                table,
            );
        if i < events.len() {
            assert(events[i] == more[i]);
        }
    }
}

/// The preconditions with what one more call reads.
#[verifier::loop_isolation(false)]
#[verifier::rlimit(60)]
fn seed_reads(
    plan: &mut SeedPlan,
    event: &BoundaryEvent,
    written_keys: &Table<PairKey, ()>,
    created_tables: &Table<PairKey, ()>,
    Ghost(history): Ghost<Seq<BoundaryEvent>>,
    Ghost(c): Ghost<Option<Seq<char>>>,
)
    requires
        old(plan).wf(),
        in_correlation(*event, c),
        holds_written(*written_keys, history, c),
        holds_created(*created_tables, history, c),
        forall|b: Seq<char>, k: Seq<char>| #[trigger]
            old(plan).at(b, k) == precondition(history, c, b, k),
    ensures
        final(plan).wf(),
        forall|b: Seq<char>, k: Seq<char>| #[trigger]
            final(plan).at(b, k) == precondition(history.push(*event), c, b, k),
{
    proof {
        assert(history.push(*event).drop_last() =~= history);
    }
    if event.is_error || is_miss_result(event) {
        proof {
            assert forall|b: Seq<char>, k: Seq<char>| #[trigger]
                plan.at(b, k) == precondition(history.push(*event), c, b, k) by {
                assert(plan.at(b, k) == precondition(history, c, b, k));
            }
        }
        return;
    }
    let mut j: usize = 0;
    while j < event.read_set.len()
        invariant
            0 <= j <= event.read_set@.len(),
            plan.wf(),
            forall|b: Seq<char>, k: Seq<char>| #[trigger]
                plan.at(b, k) == (if precondition(history, c, b, k) is Some {
                    precondition(history, c, b, k)
                } else if b == event.boundary@ && !written(history, c, b, k) && reads_freely(
                    history,
                    c,
                    *event,
                    k,
                    j as int,
                ) {
                    Some(seed_of(*event, k))
                } else {
                    None
                }),
        decreases event.read_set@.len() - j,
    {
        let ghost before = *plan;
        let ghost raw = event.read_set@[j as int]@;
        let ghost key = canonical(raw);
        let canonical_key = canonical_state_key_wire(event.read_set[j].as_str());
        let was_written = written_keys.get(
            &PairKey { first: event.boundary.clone(), second: canonical_key.clone() },
        ).is_some();
        let own_rows = if text_eq(event.boundary.as_str(), "db") {
            match db_read_table(event, event.read_set[j].as_str()) {
                Some(table) => created_tables.get(
                    &PairKey { first: event.boundary.clone(), second: table },
                ).is_some(),
                None => false,
            }
        } else {
            false
        };
        proof {
            assert(was_written == written(history, c, event.boundary@, key));
            assert(own_rows == reads_own_rows(history, c, *event, raw));
        }
        if !was_written && !own_rows {
            let image = preferred_seed_image(event, canonical_key.as_str());
            plan.upsert(
                SeedEntry {
                    boundary: event.boundary.clone(),
                    key: canonical_key,
                    value: event.result.clone(),
                    image,
                    origin: SeedOrigin::Recording,
                },
            );
        }
        proof {
            assert forall|b: Seq<char>, k: Seq<char>| #[trigger]
                plan.at(b, k) == (if precondition(history, c, b, k) is Some {
                    precondition(history, c, b, k)
                } else if b == event.boundary@ && !written(history, c, b, k) && reads_freely(
                    history,
                    c,
                    *event,
                    k,
                    j as int + 1,
                ) {
                    Some(seed_of(*event, k))
                } else {
                    None
                }) by {
                reads_one_more(history, c, *event, k, j as int);
                assert(before.at(b, k) == (if precondition(history, c, b, k) is Some {
                    precondition(history, c, b, k)
                } else if b == event.boundary@ && !written(history, c, b, k) && reads_freely(
                    history,
                    c,
                    *event,
                    k,
                    j as int,
                ) {
                    Some(seed_of(*event, k))
                } else {
                    None
                }));
                if !(b == event.boundary@ && k == key) {
                    assert(plan.at(b, k) == before.at(b, k));
                }
            }
        }
        j = j + 1;
    }
    proof {
        assert forall|b: Seq<char>, k: Seq<char>| #[trigger]
            plan.at(b, k) == precondition(history.push(*event), c, b, k) by {
            assert(history.push(*event).last() == *event);
        }
    }
}

proof fn reads_one_more(
    history: Seq<BoundaryEvent>,
    c: Option<Seq<char>>,
    e: BoundaryEvent,
    k: Seq<char>,
    j: int,
)
    requires
        0 <= j < e.read_set@.len(),
    ensures
        reads_freely(history, c, e, k, j + 1) <==> reads_freely(history, c, e, k, j) || (canonical(
            e.read_set@[j]@,
        ) == k && !reads_own_rows(history, c, e, e.read_set@[j]@)),
{
    if canonical(e.read_set@[j]@) == k && !reads_own_rows(history, c, e, e.read_set@[j]@) {
        assert(reads_freely(history, c, e, k, j + 1));
    }
}

/// Notes what one more call writes.
#[verifier::loop_isolation(false)]
fn note_writes(
    written_keys: &mut Table<PairKey, ()>,
    event: &BoundaryEvent,
    Ghost(history): Ghost<Seq<BoundaryEvent>>,
    Ghost(c): Ghost<Option<Seq<char>>>,
)
    requires
        in_correlation(*event, c),
        holds_written(*old(written_keys), history, c),
    ensures
        holds_written(*final(written_keys), history.push(*event), c),
{
    let ghost start = *written_keys;
    let mut i: usize = 0;
    while i < event.write_set.len()
        invariant
            0 <= i <= event.write_set@.len(),
            forall|b: Seq<char>, k: Seq<char>| #[trigger]
                written_keys.at((b, k)) is Some <==> start.at((b, k)) is Some || (b
                    == event.boundary@ && exists|j: int|
                    0 <= j < i && canonical(#[trigger] event.write_set@[j]@) == k),
        decreases event.write_set@.len() - i,
    {
        let ghost before = *written_keys;
        let wire = canonical_state_key_wire(event.write_set[i].as_str());
        let ghost key = wire@;
        written_keys.put(PairKey { first: event.boundary.clone(), second: wire }, ());
        proof {
            assert(canonical(event.write_set@[i as int]@) == key);
            assert forall|b: Seq<char>, k: Seq<char>| #[trigger]
                written_keys.at((b, k)) is Some <==> start.at((b, k)) is Some || (b
                    == event.boundary@ && exists|j: int|
                    0 <= j < i + 1 && canonical(#[trigger] event.write_set@[j]@) == k) by {
                assert(before.at((b, k)) is Some <==> start.at((b, k)) is Some || (b
                    == event.boundary@ && exists|j: int|
                    0 <= j < i && canonical(#[trigger] event.write_set@[j]@) == k));
                if (b, k) != (event.boundary@, key) {
                    assert(written_keys.at((b, k)) == before.at((b, k)));
                }
            }
        }
        i = i + 1;
    }
    proof {
        assert forall|b: Seq<char>, k: Seq<char>| #[trigger]
            written_keys.at((b, k)) is Some <==> written(history.push(*event), c, b, k) by {
            one_more_writes(history, c, *event, b, k);
            assert(start.at((b, k)) is Some <==> written(history, c, b, k));
        }
    }
}

/// Notes the table in which one more call creates rows.
fn note_creates(
    created_tables: &mut Table<PairKey, ()>,
    event: &BoundaryEvent,
    Ghost(history): Ghost<Seq<BoundaryEvent>>,
    Ghost(c): Ghost<Option<Seq<char>>>,
)
    requires
        in_correlation(*event, c),
        holds_created(*old(created_tables), history, c),
    ensures
        holds_created(*final(created_tables), history.push(*event), c),
{
    let ghost start = *created_tables;
    if text_eq(event.boundary.as_str(), "db") && is_db_create_event(event) {
        if let Some(table) = db_created_table(event) {
            created_tables.put(PairKey { first: event.boundary.clone(), second: table }, ());
        }
    }
    proof {
        assert forall|table: Seq<char>| #[trigger]
            created_tables.at(("db"@, table)) is Some <==> created(
                history.push(*event),
                c,
                table,
            ) by {
            one_more_creates(history, c, *event, table);
            assert(start.at(("db"@, table)) is Some <==> created(history, c, table));
        }
    }
}

/// Gathers the preconditions of a correlation: for each key of a boundary, what
/// the first call found under it that shows what it held before the correlation
/// changed it.
#[verifier::loop_isolation(false)]
pub fn build_seed_plan(events: &Vec<BoundaryEvent>, correlation_id: Option<&str>) -> (r: SeedPlan)
    ensures
        r.wf(),
        forall|b: Seq<char>, k: Seq<char>| #[trigger]
            r.at(b, k) == precondition(events@, correlation_id.deep_view(), b, k),
{
    let ghost c = correlation_id.deep_view();
    let ghost all = events@;
    let mut plan = SeedPlan::new();
    let mut written_keys: Table<PairKey, ()> = Table::new();
    let mut created_tables: Table<PairKey, ()> = Table::new();
    let mut i: usize = 0;
    proof {
        assert(all.take(0) =~= Seq::<BoundaryEvent>::empty());
    }
    while i < events.len()
        invariant
            0 <= i <= events@.len(),
            plan.wf(),
            holds_written(written_keys, all.take(i as int), c),
            holds_created(created_tables, all.take(i as int), c),
            forall|b: Seq<char>, k: Seq<char>| #[trigger]
                plan.at(b, k) == precondition(all.take(i as int), c, b, k),
        decreases events@.len() - i,
    {
        let event = &events[i];
        let ghost history = all.take(i as int);
        let ghost more = all.take(i as int + 1);
        proof {
            assert(more =~= history.push(*event));
        }
        if correlation_matches(event, correlation_id) {
            seed_reads(
                &mut plan,
                event,
                &written_keys,
                &created_tables,
                Ghost(history),
                Ghost(c),
            );
            note_writes(&mut written_keys, event, Ghost(history), Ghost(c));
            note_creates(&mut created_tables, event, Ghost(history), Ghost(c));
        } else {
            proof {
                assert forall|b: Seq<char>, k: Seq<char>| #[trigger]
                    written_keys.at((b, k)) is Some <==> written(more, c, b, k) by {
                    one_more_writes(history, c, *event, b, k);
                }
                assert forall|table: Seq<char>| #[trigger]
                    created_tables.at(("db"@, table)) is Some <==> created(more, c, table) by {
                    one_more_creates(history, c, *event, table);
                }
                assert(more.drop_last() =~= history);
                assert forall|b: Seq<char>, k: Seq<char>| #[trigger]
                    plan.at(b, k) == precondition(more, c, b, k) by {
                    assert(plan.at(b, k) == precondition(history, c, b, k));
                }
            }
        }
        i = i + 1;
    }
    proof {
        assert(all.take(all.len() as int) =~= all);
    }
    plan
}

/// Once a key has a precondition, no later call changes it: not a read behind a
/// write, and not another read.
pub proof fn the_first_precondition_stays(
    events: Seq<BoundaryEvent>,
    later: Seq<BoundaryEvent>,
    correlation_id: Option<Seq<char>>,
    boundary: Seq<char>,
    key: Seq<char>,
)
    requires
        precondition(events, correlation_id, boundary, key) is Some,
    ensures
        precondition(events + later, correlation_id, boundary, key) == precondition(
            events,
            correlation_id,
            boundary,
            key,
        ),
    decreases later.len(),
{
    if later.len() == 0 {
        assert(events + later =~= events);
    } else {
        the_first_precondition_stays(events, later.drop_last(), correlation_id, boundary, key);
        assert((events + later).drop_last() =~= events + later.drop_last());
    }
}

/// A key that was written before any call showed what it held has no
/// precondition, whatever is read later.
pub proof fn written_keys_are_not_seeded(
    events: Seq<BoundaryEvent>,
    later: Seq<BoundaryEvent>,
    correlation_id: Option<Seq<char>>,
    boundary: Seq<char>,
    key: Seq<char>,
)
    requires
        written(events, correlation_id, boundary, key),
        precondition(events, correlation_id, boundary, key) is None,
    ensures
        precondition(events + later, correlation_id, boundary, key) is None,
        written(events + later, correlation_id, boundary, key),
    decreases later.len(),
{
    if later.len() == 0 {
        assert(events + later =~= events);
    } else {
        written_keys_are_not_seeded(events, later.drop_last(), correlation_id, boundary, key);
        let before = events + later.drop_last();
        assert((events + later).drop_last() =~= before);
        assert(events + later =~= before.push(later.last()));
        one_more_writes(before, correlation_id, later.last(), boundary, key);
    }
}

/// The calls of other correlations have no part in the preconditions of one.
pub proof fn other_correlations_are_not_read(
    events: Seq<BoundaryEvent>,
    other: BoundaryEvent,
    correlation_id: Option<Seq<char>>,
    boundary: Seq<char>,
    key: Seq<char>,
)
    requires
        !in_correlation(other, correlation_id),
    ensures
        precondition(events.push(other), correlation_id, boundary, key) == precondition(
            events,
            correlation_id,
            boundary,
            key,
        ),
        written(events.push(other), correlation_id, boundary, key) == written(
            events,
            correlation_id,
            boundary,
            key,
        ),
{
    assert(events.push(other).drop_last() =~= events);
    one_more_writes(events, correlation_id, other, boundary, key);
}

proof fn the_first_that_shows(
    events: Seq<BoundaryEvent>,
    c: Option<Seq<char>>,
    boundary: Seq<char>,
    key: Seq<char>,
)
    ensures
        match first_shown(events, c, boundary, key) {
            Some(e) => exists|i: int|
                0 <= i < events.len() && e == #[trigger] events[i] && shows(
                    events.take(i),
                    c,
                    events[i],
                    boundary,
                    key,
                ) && forall|h: int|
                    0 <= h < i ==> !shows(
                        events.take(h),
                        c,
                        #[trigger] events[h],
                        boundary,
                        key,
                    ),
            None => forall|h: int|
                0 <= h < events.len() ==> !shows(
                    events.take(h),
                    c,
                    #[trigger] events[h],
                    boundary,
                    key,
                ),
        },
    decreases events.len(),
{
    if events.len() > 0 {
        let before = events.drop_last();
        the_first_that_shows(before, c, boundary, key);
        assert forall|h: int| 0 <= h < before.len() implies before[h] == events[h] && before.take(h)
            == #[trigger] events.take(h) by {
            assert(before.take(h) =~= events.take(h));
        }
        let n = before.len() as int;
        assert(events.take(n) =~= before);
        assert(events[n] == events.last());
        if first_shown(before, c, boundary, key) is Some {
            let e = first_shown(before, c, boundary, key)->0;
            let i = choose|i: int|
                0 <= i < before.len() && e == #[trigger] before[i] && shows(
                    before.take(i),
                    c,
                    before[i],
                    boundary,
                    key,
                ) && forall|h: int|
                    0 <= h < i ==> !shows(before.take(h), c, #[trigger] before[h], boundary, key);
            assert(before.take(i) =~= events.take(i));
            assert(e == events[i]);
            assert forall|h: int| 0 <= h < i implies !shows(
                events.take(h),
                c,
                #[trigger] events[h],
                boundary,
                key,
            ) by {
                assert(before[h] == events[h]);
                assert(before.take(h) =~= events.take(h));
            }
        } else {
            assert forall|h: int| 0 <= h < before.len() implies !shows(
                events.take(h),
                c,
                #[trigger] events[h],
                boundary,
                key,
            ) by {
                assert(before[h] == events[h]);
                assert(before.take(h) =~= events.take(h));
            }
        }
    }
}

/// Every key that a successful call of the correlation finds something under is
/// seeded, whichever of the call's keys it is, unless a call before it wrote the
/// key, or created rows in the table the key is of.
pub proof fn every_key_read_is_seeded(
    events: Seq<BoundaryEvent>,
    correlation_id: Option<Seq<char>>,
    i: int,
    j: int,
)
    requires
        0 <= i < events.len(),
        0 <= j < events[i].read_set@.len(),
        events[i].correlation_id.deep_view() == correlation_id,
        !events[i].is_error,
        !found_nothing(events[i]),
        forall|h: int, w: int|
            0 <= h < i && events[h].correlation_id.deep_view() == correlation_id
                && events[h].boundary@ == events[i].boundary@ && 0 <= w < events[h].write_set@.len()
                ==> canonical(#[trigger] events[h].write_set@[w]@) != canonical(
                events[i].read_set@[j]@,
            ),
        events[i].boundary@ == "db"@ ==> forall|h: int|
            0 <= h < i && (#[trigger] events[h]).correlation_id.deep_view() == correlation_id
                && events[h].boundary@ == "db"@ && creates(events[h]) && created_table(
                events[h],
            ) is Some ==> created_table(events[h]) != read_table(
                events[i],
                events[i].read_set@[j]@,
            ),
    ensures
        precondition(
            events,
            correlation_id,
            events[i].boundary@,
            canonical(events[i].read_set@[j]@),
        ) is Some,
{
    let e = events[i];
    let key = canonical(e.read_set@[j]@);
    let history = events.take(i);
    assert(!written(history, correlation_id, e.boundary@, key)) by {
        if written(history, correlation_id, e.boundary@, key) {
            let h = choose|h: int|
                0 <= h < history.len() && in_correlation(#[trigger] history[h], correlation_id)
                    && history[h].boundary@ == e.boundary@ && writes_key(history[h], key);
            let w = choose|w: int|
                0 <= w < history[h].write_set@.len() && canonical(
                    #[trigger] history[h].write_set@[w]@,
                ) == key;
            assert(canonical(events[h].write_set@[w]@) != key);
        }
    }
    assert(!reads_own_rows(history, correlation_id, e, e.read_set@[j]@)) by {
        if reads_own_rows(history, correlation_id, e, e.read_set@[j]@) {
            let table = read_table(e, e.read_set@[j]@)->0;
            let h = choose|h: int|
                0 <= h < history.len() && in_correlation(#[trigger] history[h], correlation_id)
                    && history[h].boundary@ == "db"@ && creates(history[h]) && created_table(
                    history[h],
                ) == Some(table);
            assert(history[h] == events[h]);
        }
    }
    assert(reads_freely(history, correlation_id, e, key, e.read_set@.len() as int));
    assert(shows(history, correlation_id, e, e.boundary@, key));
    the_first_that_shows(events, correlation_id, e.boundary@, key);
}

/// A seed is what the first call read that could show it: a successful call of
/// the correlation at the boundary, with the key among those it reads, behind no
/// call that wrote the key; and it holds that call's whole result, beside the
/// image of the row before the call where the call itself writes the key, else
/// the image behind it.
pub proof fn seeds_are_what_was_read(
    events: Seq<BoundaryEvent>,
    correlation_id: Option<Seq<char>>,
    boundary: Seq<char>,
    key: Seq<char>,
)
    requires
        precondition(events, correlation_id, boundary, key) is Some,
    ensures
        exists|i: int, j: int|
            #![trigger events[i].read_set@[j]]
            {
                let seed = precondition(events, correlation_id, boundary, key)->0;
                &&& 0 <= i < events.len()
                &&& 0 <= j < events[i].read_set@.len()
                &&& canonical(events[i].read_set@[j]@) == key
                &&& events[i].correlation_id.deep_view() == correlation_id
                &&& events[i].boundary@ == boundary
                &&& !events[i].is_error
                &&& !(events[i].result@ is Null)
                &&& forall|h: int, w: int|
                    0 <= h < i && events[h].correlation_id.deep_view() == correlation_id
                        && events[h].boundary@ == boundary && 0 <= w < events[h].write_set@.len()
                        ==> canonical(#[trigger] events[h].write_set@[w]@) != key
                &&& boundary == "db"@ ==> forall|h: int|
                    0 <= h < i && (#[trigger] events[h]).correlation_id.deep_view()
                        == correlation_id && events[h].boundary@ == "db"@ && creates(events[h])
                        && created_table(events[h]) is Some ==> created_table(events[h])
                        != read_table(events[i], events[i].read_set@[j]@)
                &&& seed.boundary == boundary
                &&& seed.key == key
                &&& seed.value == events[i].result@
                &&& seed.origin is Recording
                &&& seed.image == events[i].pre_image.deep_view() || seed.image
                    == events[i].result_image.deep_view()
                &&& (boundary == "db"@ && exists|w: int|
                    0 <= w < events[i].write_set@.len() && canonical(#[trigger] events[i].write_set@[w]@) == key)
                    ==> seed.image == events[i].pre_image.deep_view()
                &&& boundary != "db"@ ==> seed.image == events[i].result_image.deep_view()
                &&& (forall|w: int|
                    0 <= w < events[i].write_set@.len() ==> canonical(#[trigger] events[i].write_set@[w]@) != key)
                    ==> seed.image == events[i].result_image.deep_view()
            },
{
    the_first_that_shows(events, correlation_id, boundary, key);
    let e = first_shown(events, correlation_id, boundary, key)->0;
    let i = choose|i: int|
        0 <= i < events.len() && e == #[trigger] events[i] && shows(
            events.take(i),
            correlation_id,
            events[i],
            boundary,
            key,
        );
    let history = events.take(i);
    let j = choose|j: int|
        0 <= j < e.read_set@.len() && canonical(#[trigger] e.read_set@[j]@) == key
            && !reads_own_rows(history, correlation_id, e, e.read_set@[j]@);
    assert(events[i] == e);
    assert(canonical(e.read_set@[j]@) == key);
    assert forall|h: int, w: int|
        0 <= h < i && events[h].correlation_id.deep_view() == correlation_id
            && events[h].boundary@ == boundary && 0 <= w < events[h].write_set@.len() implies canonical(
        #[trigger] events[h].write_set@[w]@,
    ) != key by {
        assert(history[h] == events[h]);
        if canonical(events[h].write_set@[w]@) == key {
            assert(writes_key(events[h], key));
            assert(written(history, correlation_id, boundary, key));
        }
    }
    assert forall|h: int|
        boundary == "db"@ && 0 <= h < i && (#[trigger] events[h]).correlation_id.deep_view()
            == correlation_id && events[h].boundary@ == "db"@ && creates(events[h])
            && created_table(events[h]) is Some implies created_table(events[h]) != read_table(
        events[i],
        events[i].read_set@[j]@,
    ) by {
        assert(history[h] == events[h]);
        if created_table(events[h]) == read_table(e, e.read_set@[j]@) {
            assert(created(history, correlation_id, read_table(e, e.read_set@[j]@)->0));
            assert(reads_own_rows(history, correlation_id, e, e.read_set@[j]@));
        }
    }
    assert(events[i].read_set@[j]@ == e.read_set@[j]@);
}

/// Of the calls that read a key, the first that shows it gives the seed: no call
/// behind a given reader is seeded in its place.
pub proof fn the_earliest_reader_is_seeded(
    events: Seq<BoundaryEvent>,
    correlation_id: Option<Seq<char>>,
    i: int,
    j: int,
)
    requires
        0 <= i < events.len(),
        0 <= j < events[i].read_set@.len(),
        events[i].correlation_id.deep_view() == correlation_id,
        !events[i].is_error,
        !found_nothing(events[i]),
        events[i].boundary@ != "db"@,
        forall|h: int, w: int|
            0 <= h < i && events[h].correlation_id.deep_view() == correlation_id && 0 <= w
                < events[h].write_set@.len() ==> canonical(#[trigger] events[h].write_set@[w]@)
                != canonical(events[i].read_set@[j]@),
        forall|h: int, r: int|
            0 <= h < i && events[h].correlation_id.deep_view() == correlation_id && 0 <= r
                < events[h].read_set@.len() ==> canonical(#[trigger] events[h].read_set@[r]@)
                != canonical(events[i].read_set@[j]@),
    ensures
        precondition(
            events,
            correlation_id,
            events[i].boundary@,
            canonical(events[i].read_set@[j]@),
        ) matches Some(seed) && seed.value == events[i].result@,
{
    let key = canonical(events[i].read_set@[j]@);
    let boundary = events[i].boundary@;
    every_key_read_is_seeded(events, correlation_id, i, j);
    the_first_that_shows(events, correlation_id, boundary, key);
    let e = first_shown(events, correlation_id, boundary, key)->0;
    let k = choose|k: int|
        0 <= k < events.len() && e == #[trigger] events[k] && shows(
            events.take(k),
            correlation_id,
            events[k],
            boundary,
            key,
        ) && forall|h: int|
            0 <= h < k ==> !shows(
                events.take(h),
                correlation_id,
                #[trigger] events[h],
                boundary,
                key,
            );
    if k < i {
        let r = choose|r: int|
            0 <= r < e.read_set@.len() && canonical(#[trigger] e.read_set@[r]@) == key
                && !reads_own_rows(events.take(k), correlation_id, e, e.read_set@[r]@);
        assert(canonical(events[k].read_set@[r]@) == key);
    }
    if i < k {
        let history = events.take(i);
        if written(history, correlation_id, boundary, key) {
            let h = choose|h: int|
                0 <= h < history.len() && in_correlation(#[trigger] history[h], correlation_id)
                    && history[h].boundary@ == boundary && writes_key(history[h], key);
            let w = choose|w: int|
                0 <= w < history[h].write_set@.len() && canonical(
                    #[trigger] history[h].write_set@[w]@,
                ) == key;
            assert(canonical(events[h].write_set@[w]@) != key);
        }
        assert(canonical(events[i].read_set@[j]@) == key);
        assert(reads_freely(
            history,
            correlation_id,
            events[i],
            key,
            events[i].read_set@.len() as int,
        ));
        assert(shows(history, correlation_id, events[i], boundary, key));
    }
}

/// What counts as finding nothing: null always; the text `Null` where the call
/// reads Redis; a success of null where the boundary declares its result
/// optional; and nothing else, so a call that declares nothing finds whatever is
/// not null.
pub proof fn misses_are_declared(e: BoundaryEvent)
    ensures
        e.result@ is Null ==> found_nothing(e),
        e.declaration is None ==> (found_nothing(e) <==> e.result@ is Null),
        e.declaration matches Some(d) ==> {
            &&& d.effect != Some(EffectKind::Redis) && d.return_shape != Some(
                ReturnSemantics::Optional,
            ) ==> (found_nothing(e) <==> e.result@ is Null)
            &&& d.effect == Some(EffectKind::Redis) && e.read_set@.len() > 0 && e.result@
                == JsonView::String("Null"@) ==> found_nothing(e)
            &&& d.return_shape == Some(ReturnSemantics::Optional) && e.result@.member("Ok"@)
                == Some(JsonView::Null) ==> found_nothing(e)
            &&& found_nothing(e) && !(e.result@ is Null) && d.return_shape != Some(
                ReturnSemantics::Optional,
            ) ==> e.result@ == JsonView::String("Null"@) && e.read_set@.len() > 0
            &&& found_nothing(e) && !(e.result@ is Null) && d.effect != Some(EffectKind::Redis)
                ==> e.result@.member("Ok"@) == Some(JsonView::Null)
        },
{
}

/// A template never takes the place of what a recording read.
pub proof fn templates_do_not_clobber(
    existing: SeedEntryView,
    template: Seq<SeedEntryView>,
    boundary: Seq<char>,
    key: Seq<char>,
)
    requires
        existing.origin is Recording,
    ensures
        filled(Some(existing), template, boundary, key) == Some(existing),
    decreases template.len(),
{
    if template.len() > 0 {
        templates_do_not_clobber(existing, template.drop_last(), boundary, key);
    }
}

/// What a template gives, a plan covers.
pub proof fn templates_fill_the_gaps(
    existing: Option<SeedEntryView>,
    template: Seq<SeedEntryView>,
    i: int,
)
    requires
        0 <= i < template.len(),
        forall|j: int| 0 <= j < template.len() ==> (#[trigger] template[j]).origin is Ambient,
    ensures
        filled(existing, template, template[i].boundary, template[i].key) is Some,
    decreases template.len(),
{
    let before = template.drop_last();
    if i < before.len() {
        assert forall|j: int| 0 <= j < before.len() implies (
        #[trigger] before[j]).origin is Ambient by {
            assert(template[j].origin is Ambient);
        }
        templates_fill_the_gaps(existing, before, i);
        assert(before[i] == template[i]);
    }
}

/// The table a call creates rows in is the one its arguments name, else the one
/// its request names, else that of the first key it writes that has one; the table
/// of a key it reads is the key's own, else the one the call names.
pub proof fn tables_are_named_by_the_call(e: BoundaryEvent, key: Seq<char>, j: int)
    ensures
        named_table(e.args@) is Some ==> created_table(e) == named_table(e.args@),
        named_table(e.args@) is None && named_table(e.request@) is Some ==> created_table(e)
            == named_table(e.request@),
        named_table(e.args@) is None && named_table(e.request@) is None && 0 <= j
            < e.write_set@.len() && key_table(e.write_set@[j]@) is Some && (forall|h: int|
            0 <= h < j ==> key_table((#[trigger] e.write_set@[h])@) is None) ==> created_table(e)
            == key_table(e.write_set@[j]@),
        named_table(e.args@) is None && named_table(e.request@) is None && (forall|h: int|
            0 <= h < e.write_set@.len() ==> key_table((#[trigger] e.write_set@[h])@) is None)
            ==> created_table(e) is None,
        key_table(key) is Some ==> read_table(e, key) == key_table(key),
        key_table(key) is None && named_table(e.args@) is Some ==> read_table(e, key)
            == named_table(e.args@),
        key_table(key) is None && named_table(e.args@) is None ==> read_table(e, key)
            == named_table(e.request@),
        key_of(key) matches Ok(k) ==> key_table(key) == table_of(k),
        key_of(key) is Err ==> key_table(key) is None,
        creates(e) <==> e.declaration is Some && e.declaration->0.op == Some(
            OperationKind::Create,
        ),
{
    let all = texts(e.write_set@);
    assert(all.len() == e.write_set@.len());
    if 0 <= j < e.write_set@.len() && key_table(e.write_set@[j]@) is Some && (forall|h: int|
        0 <= h < j ==> key_table((#[trigger] e.write_set@[h])@) is None) {
        assert forall|h: int| 0 <= h < j implies key_table(#[trigger] all[h]) is None by {
            assert(all[h] == e.write_set@[h]@);
        }
        assert(all[j] == e.write_set@[j]@);
        the_first_table_stands(all, j);
    }
    if forall|h: int|
        0 <= h < e.write_set@.len() ==> key_table((#[trigger] e.write_set@[h])@) is None {
        assert forall|h: int| 0 <= h < all.len() implies key_table(#[trigger] all[h]) is None by {
            assert(all[h] == e.write_set@[h]@);
        }
        no_table_stands(all);
    }
}

proof fn the_first_table_stands(keys: Seq<Seq<char>>, j: int)
    requires
        0 <= j < keys.len(),
        key_table(keys[j]) is Some,
        forall|h: int| 0 <= h < j ==> key_table(#[trigger] keys[h]) is None,
    ensures
        first_table(keys) == key_table(keys[j]),
    decreases j,
{
    if j > 0 {
        assert(key_table(keys[0]) is None);
        let rest = keys.drop_first();
        assert forall|h: int| 0 <= h < j - 1 implies key_table(#[trigger] rest[h]) is None by {
            assert(key_table(keys[h + 1]) is None);
        }
        the_first_table_stands(rest, j - 1);
    }
}

proof fn no_table_stands(keys: Seq<Seq<char>>)
    requires
        forall|h: int| 0 <= h < keys.len() ==> key_table(#[trigger] keys[h]) is None,
    ensures
        first_table(keys) is None,
    decreases keys.len(),
{
    if keys.len() > 0 {
        assert(key_table(keys[0]) is None);
        let rest = keys.drop_first();
        assert forall|h: int| 0 <= h < rest.len() implies key_table(#[trigger] rest[h]) is None by {
            assert(key_table(keys[h + 1]) is None);
        }
        no_table_stands(rest);
    }
}

} // verus!
