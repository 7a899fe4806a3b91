//! Seeding: the state a correlation found before it changed it, gathered from
//! what it read.

use vstd::prelude::*;
use crate::json::{json_clone, parse_json, parsed_json, Json, JsonView};
use crate::order::{
    at_or_before, text_le, text_le_is_antisymmetric, text_le_is_total, text_le_is_transitive,
};
use crate::text::{chars_of, split, split_on, text_eq, text_of, texts, trim, trimmed};

verus! {

/// Where a seed comes from.
#[derive(Debug, Clone, Copy, PartialEq, Eq, Structural)]
pub enum SeedOrigin {
    /// The recording read it.
    Recording,
    /// A template gives it.
    Ambient,
}

impl Default for SeedOrigin {
    fn default() -> (r: SeedOrigin)
        ensures
            r is Recording,
    {
        SeedOrigin::Recording
    }
}

/// One precondition: what a key of a boundary has to hold.
#[derive(Debug, PartialEq)]
pub struct SeedEntry {
    pub boundary: String,
    pub key: String,
    pub value: Json,
    /// A typed image of the state, to seed in place of the value.
    pub image: Option<Json>,
    pub origin: SeedOrigin,
}

/// What a seed says.
pub struct SeedEntryView {
    pub boundary: Seq<char>,
    pub key: Seq<char>,
    pub value: JsonView,
    pub image: Option<JsonView>,
    pub origin: SeedOrigin,
}

impl View for SeedEntry {
    type V = SeedEntryView;

    open spec fn view(&self) -> SeedEntryView {
        SeedEntryView {
            boundary: self.boundary@,
            key: self.key@,
            value: self.value@,
            image: self.image.deep_view(),
            origin: self.origin,
        }
    }
}

impl Clone for SeedEntry {
    fn clone(&self) -> (r: SeedEntry)
        ensures
            r@ == self@,
    {
        SeedEntry {
            boundary: self.boundary.clone(),
            key: self.key.clone(),
            value: self.value.clone(),
            image: json_clone(&self.image),
            origin: self.origin,
        }
    }
}

/// Whether a key of a boundary stands before another: by the boundary, then by
/// the key.
pub open spec fn key_before(a: SeedEntryView, b: SeedEntryView) -> bool {
    if a.boundary == b.boundary {
        text_le(a.key, b.key) && a.key != b.key
    } else {
        text_le(a.boundary, b.boundary)
    }
}

proof fn key_before_is_an_order(a: SeedEntryView, b: SeedEntryView, c: SeedEntryView)
    ensures
        !(key_before(a, b) && key_before(b, a)),
        !key_before(a, a),
        key_before(a, b) && key_before(b, c) ==> key_before(a, c),
        key_before(a, b) || key_before(b, a) || (a.boundary == b.boundary && a.key == b.key),
{
    text_le_is_total(a.boundary, b.boundary);
    text_le_is_total(a.key, b.key);
    if text_le(a.boundary, b.boundary) && text_le(b.boundary, a.boundary) {
        text_le_is_antisymmetric(a.boundary, b.boundary);
    }
    if text_le(a.key, b.key) && text_le(b.key, a.key) {
        text_le_is_antisymmetric(a.key, b.key);
    }
    if key_before(a, b) && key_before(b, c) {
        if text_le(a.boundary, b.boundary) && text_le(b.boundary, c.boundary) {
            text_le_is_transitive(a.boundary, b.boundary, c.boundary);
            if a.boundary == c.boundary {
                text_le_is_antisymmetric(a.boundary, b.boundary);
            }
        }
        if text_le(a.key, b.key) && text_le(b.key, c.key) {
            text_le_is_transitive(a.key, b.key, c.key);
            if a.key == c.key {
                text_le_is_antisymmetric(a.key, b.key);
            }
        }
    }
}

fn stands_before(a: &SeedEntry, b: &SeedEntry) -> (r: bool)
    ensures
        r == key_before(a@, b@),
{
    if text_eq(a.boundary.as_str(), b.boundary.as_str()) {
        at_or_before(a.key.as_str(), b.key.as_str()) && !text_eq(a.key.as_str(), b.key.as_str())
    } else {
        at_or_before(a.boundary.as_str(), b.boundary.as_str())
    }
}

/// What seeds say.
pub open spec fn seed_views(s: Seq<SeedEntry>) -> Seq<SeedEntryView> {
    s.map_values(|e: SeedEntry| e@)
}

/// The seed of a key among others.
pub open spec fn seed_at(s: Seq<SeedEntryView>, boundary: Seq<char>, key: Seq<char>) -> Option<
    SeedEntryView,
>
    decreases s.len(),
{
    if s.len() == 0 {
        None
    } else if s[0].boundary == boundary && s[0].key == key {
        Some(s[0])
    } else {
        seed_at(s.drop_first(), boundary, key)
    }
}

proof fn seed_at_the_place(s: Seq<SeedEntryView>, i: int)
    requires
        in_key_order(s),
        0 <= i < s.len(),
    ensures
        seed_at(s, s[i].boundary, s[i].key) == Some(s[i]),
    decreases s.len(),
{
    if i > 0 {
        assert(key_before(s[0], s[i]));
        key_before_is_an_order(s[0], s[i], s[i]);
        let fewer = s.drop_first();
        assert forall|a: int, b: int| 0 <= a < b < fewer.len() implies key_before(
            #[trigger] fewer[a],
            #[trigger] fewer[b],
        ) by {
            assert(key_before(s[a + 1], s[b + 1]));
        }
        seed_at_the_place(fewer, i - 1);
    }
}

proof fn seed_at_no_place(s: Seq<SeedEntryView>, boundary: Seq<char>, key: Seq<char>)
    requires
        forall|i: int|
            0 <= i < s.len() ==> !((#[trigger] s[i]).boundary == boundary && s[i].key == key),
    ensures
        seed_at(s, boundary, key) is None,
    decreases s.len(),
{
    if s.len() > 0 {
        assert(!(s[0].boundary == boundary && s[0].key == key));
        let fewer = s.drop_first();
        assert forall|i: int| 0 <= i < fewer.len() implies !((#[trigger] fewer[i]).boundary
            == boundary && fewer[i].key == key) by {
            assert(!(s[i + 1].boundary == boundary && s[i + 1].key == key));
        }
        seed_at_no_place(fewer, boundary, key);
    }
}

/// Whether seeds stand by boundary and key, no key twice.
pub open spec fn in_key_order(s: Seq<SeedEntryView>) -> bool {
    forall|i: int, j: int|
        0 <= i < j < s.len() ==> key_before(#[trigger] s[i], #[trigger] s[j])
}

/// The preconditions of a correlation, by boundary and key.
#[derive(Debug, Clone, PartialEq)]
pub struct SeedPlan {
    entries: Vec<SeedEntry>,
}

/// Whether a seed gives way to another for its key: unless the recording read
/// it.
pub open spec fn gives_way(existing: Option<SeedEntryView>) -> bool {
    existing matches Some(e) ==> e.origin is Ambient
}

impl Default for SeedPlan {
    fn default() -> (r: SeedPlan)
        ensures
            r.wf(),
            r.seeds().len() == 0,
    {
        SeedPlan::new()
    }
}

impl SeedPlan {
    /// The seeds, in order.
    pub closed spec fn seeds(self) -> Seq<SeedEntryView> {
        seed_views(self.entries@)
    }

    /// The seeds stand by boundary and key, no key twice.
    pub closed spec fn wf(self) -> bool {
        in_key_order(seed_views(self.entries@))
    }

    /// The seed of a key.
    pub open spec fn at(self, boundary: Seq<char>, key: Seq<char>) -> Option<SeedEntryView> {
        seed_at(self.seeds(), boundary, key)
    }

    /// No preconditions.
    pub fn new() -> (r: SeedPlan)
        ensures
            r.wf(),
            r.seeds().len() == 0,
            forall|b: Seq<char>, k: Seq<char>| #[trigger] r.at(b, k) is None,
    {
        SeedPlan { entries: Vec::new() }
    }

    /// Adds a precondition. What the recording read stays, and what it read
    /// first; a template only fills what it did not read.
    #[verifier::loop_isolation(false)]
    pub fn upsert(&mut self, entry: SeedEntry)
        requires
            old(self).wf(),
        ensures
            final(self).wf(),
            final(self).at(entry.boundary@, entry.key@) == (if gives_way(
                old(self).at(entry.boundary@, entry.key@),
            ) {
                Some(entry@)
            } else {
                old(self).at(entry.boundary@, entry.key@)
            }),
            forall|b: Seq<char>, k: Seq<char>|
                !(b == entry.boundary@ && k == entry.key@) ==> #[trigger] final(self).at(b, k)
                    == old(self).at(b, k),
    {
        let ghost was = seed_views(self.entries@);
        let ghost e = entry@;
        let mut i: usize = 0;
        while i < self.entries.len() && stands_before(&self.entries[i], &entry)
            invariant
                0 <= i <= self.entries@.len(),
                seed_views(self.entries@) == was,
                forall|j: int| 0 <= j < i ==> key_before(#[trigger] was[j], e),
            decreases self.entries@.len() - i,
        {
            proof {
                assert(was[i as int] == self.entries@[i as int]@);
            }
            i = i + 1;
        }
        proof {
            if i < was.len() {
                assert(was[i as int] == self.entries@[i as int]@);
            }
        }
        let taken = i < self.entries.len() && text_eq(
            self.entries[i].boundary.as_str(),
            entry.boundary.as_str(),
        ) && text_eq(self.entries[i].key.as_str(), entry.key.as_str());
        if taken {
            proof {
                seed_at_the_place(was, i as int);
            }
            if matches!(self.entries[i].origin, SeedOrigin::Recording) {
                return;
            }
            self.entries.set(i, entry);
            proof {
                let now = seed_views(self.entries@);
                assert(now =~= was.update(i as int, e));
                assert forall|a: int, b: int| 0 <= a < b < now.len() implies key_before(
                    #[trigger] now[a],
                    #[trigger] now[b],
                ) by {
                    assert(key_before(was[a], was[b]));
                }
                seed_at_the_place(now, i as int);
                assert forall|b: Seq<char>, k: Seq<char>|
                    !(b == e.boundary && k == e.key) implies seed_at(now, b, k) == seed_at(
                    was,
                    b,
                    k,
                ) by {
                    same_elsewhere(was, now, b, k);
                }
            }
        } else {
            proof {
                assert forall|j: int| i <= j < was.len() implies key_before(e, #[trigger] was[j]) by {
                    key_before_is_an_order(was[i as int], e, e);
                    if j > i {
                        assert(key_before(was[i as int], was[j]));
                        key_before_is_an_order(e, was[i as int], was[j]);
                    }
                }
                assert forall|j: int| 0 <= j < was.len() implies !((#[trigger] was[j]).boundary
                    == e.boundary && was[j].key == e.key) by {
                    key_before_is_an_order(was[j], e, e);
                    key_before_is_an_order(e, was[j], e);
                }
                seed_at_no_place(was, e.boundary, e.key);
            }
            self.entries.insert(i, entry);
            proof {
                let now = seed_views(self.entries@);
                assert(now =~= was.insert(i as int, e));
                assert forall|a: int, b: int| 0 <= a < b < now.len() implies key_before(
                    #[trigger] now[a],
                    #[trigger] now[b],
                ) by {
                    if a < i && b < i {
                        assert(key_before(was[a], was[b]));
                    } else if a < i && b == i {
                        assert(key_before(was[a], e));
                    } else if a < i {
                        assert(key_before(was[a], was[b - 1]));
                    } else if a == i {
                        assert(key_before(e, was[b - 1]));
                    } else {
                        assert(key_before(was[a - 1], was[b - 1]));
                    }
                }
                seed_at_the_place(now, i as int);
                assert forall|b: Seq<char>, k: Seq<char>|
                    !(b == e.boundary && k == e.key) implies seed_at(now, b, k) == seed_at(
                    was,
                    b,
                    k,
                ) by {
                    same_with_one_more(was, i as int, e, b, k);
                }
            }
        }
    }

    /// How many preconditions there are.
    pub fn len(&self) -> (r: usize)
        ensures
            r == self.seeds().len(),
    {
        self.entries.len()
    }

    pub fn is_empty(&self) -> (r: bool)
        ensures
            r == (self.seeds().len() == 0),
    {
        self.entries.len() == 0
    }

    /// The seed of a key.
    #[verifier::loop_isolation(false)]
    pub fn resolve(&self, boundary: &str, key: &str) -> (r: Option<&SeedEntry>)
        requires
            self.wf(),
        ensures
            match r {
                Some(e) => self.at(boundary@, key@) == Some(e@),
                None => self.at(boundary@, key@) is None,
            },
    {
        let ghost all = seed_views(self.entries@);
        let mut i: usize = 0;
        while i < self.entries.len()
            invariant
                0 <= i <= self.entries@.len(),
                forall|j: int|
                    0 <= j < i ==> !((#[trigger] all[j]).boundary == boundary@ && all[j].key
                        == key@),
            decreases self.entries@.len() - i,
        {
            proof {
                assert(all[i as int] == self.entries@[i as int]@);
            }
            if text_eq(self.entries[i].boundary.as_str(), boundary) && text_eq(
                self.entries[i].key.as_str(),
                key,
            ) {
                proof {
                    seed_at_the_place(all, i as int);
                }
                return Some(&self.entries[i]);
            }
            i = i + 1;
        }
        proof {
            seed_at_no_place(all, boundary@, key@);
        }
        None
    }

    /// Whether a key has a seed.
    pub fn contains(&self, boundary: &str, key: &str) -> (r: bool)
        requires
            self.wf(),
        ensures
            r == (self.at(boundary@, key@) is Some),
    {
        self.resolve(boundary, key).is_some()
    }

    /// The preconditions, by boundary and key.
    pub fn iter(&self) -> (r: &Vec<SeedEntry>)
        requires
            self.wf(),
        ensures
            seed_views(r@) == self.seeds(),
            in_key_order(seed_views(r@)),
    {
        &self.entries
    }

    /// The plan with what a template gives for the keys the recording did not
    /// read.
    #[verifier::loop_isolation(false)]
    pub fn with_ambient(self, template: &AmbientTemplate) -> (r: SeedPlan)
        requires
            self.wf(),
        ensures
            r.wf(),
            forall|b: Seq<char>, k: Seq<char>| #[trigger]
                r.at(b, k) == filled(self.at(b, k), template.seeds(), b, k),
    {
        let ghost all = template.seeds();
        let ghost start = self;
        let mut plan = self;
        let mut i: usize = 0;
        proof {
            assert(all.take(0) =~= Seq::<SeedEntryView>::empty());
        }
        while i < template.entries.len()
            invariant
                0 <= i <= template.entries@.len(),
                plan.wf(),
                forall|b: Seq<char>, k: Seq<char>| #[trigger]
                    plan.at(b, k) == filled(start.at(b, k), all.take(i as int), b, k),
            decreases template.entries@.len() - i,
        {
            let ghost before = plan;
            proof {
                assert(all.take(i as int + 1).drop_last() =~= all.take(i as int));
                assert(all.take(i as int + 1).last() == template.entries@[i as int]@);
            }
            plan.upsert(template.entries[i].clone());
            proof {
                assert forall|b: Seq<char>, k: Seq<char>| #[trigger]
                    plan.at(b, k) == filled(start.at(b, k), all.take(i as int + 1), b, k) by {
                    assert(before.at(b, k) == filled(start.at(b, k), all.take(i as int), b, k));
                }
            }
            i = i + 1;
        }
        proof {
            assert(all.take(all.len() as int) =~= all);
        }
        plan
    }

    /// Whether a read of a key can be served, and what with.
    pub fn classify_read(&self, boundary: &str, key: &str) -> (r: ReadClassification)
        requires
            self.wf(),
        ensures
            match self.at(boundary@, key@) {
                Some(e) => r matches ReadClassification::Reconstructable { value, origin } && value@
                    == e.value && origin == e.origin,
                None => r matches ReadClassification::NotReconstructable { boundary: b, key: k }
                    && b@ == boundary@ && k@ == key@,
            },
    {
        match self.resolve(boundary, key) {
            Some(entry) => ReadClassification::Reconstructable {
                value: entry.value.clone(),
                origin: entry.origin,
            },
            None => ReadClassification::NotReconstructable {
                boundary: boundary.to_owned(),
                key: key.to_owned(),
            },
        }
    }
}

/// What stands for a key once a template was filled in: what stood for it, if
/// the recording read it, else what the template gives for it last, else what
/// stood for it.
pub open spec fn filled(
    existing: Option<SeedEntryView>,
    template: Seq<SeedEntryView>,
    boundary: Seq<char>,
    key: Seq<char>,
) -> Option<SeedEntryView>
    decreases template.len(),
{
    if template.len() == 0 {
        existing
    } else {
        let before = filled(existing, template.drop_last(), boundary, key);
        let e = template.last();
        if e.boundary == boundary && e.key == key && gives_way(before) {
            Some(e)
        } else {
            before
        }
    }
}

proof fn same_elsewhere(
    was: Seq<SeedEntryView>,
    now: Seq<SeedEntryView>,
    b: Seq<char>,
    k: Seq<char>,
)
    requires
        was.len() == now.len(),
        forall|j: int|
            0 <= j < was.len() ==> (#[trigger] was[j]) == now[j] || (!(was[j].boundary == b
                && was[j].key == k) && !(now[j].boundary == b && now[j].key == k)),
    ensures
        seed_at(now, b, k) == seed_at(was, b, k),
    decreases was.len(),
{
    if was.len() > 0 {
        assert(was[0] == now[0] || (!(was[0].boundary == b && was[0].key == k) && !(now[0].boundary
            == b && now[0].key == k)));
        let x = was.drop_first();
        let y = now.drop_first();
        assert forall|j: int| 0 <= j < x.len() implies (#[trigger] x[j]) == y[j] || (!(x[j].boundary
            == b && x[j].key == k) && !(y[j].boundary == b && y[j].key == k)) by {
            assert(was[j + 1] == now[j + 1] || (!(was[j + 1].boundary == b && was[j + 1].key == k)
                && !(now[j + 1].boundary == b && now[j + 1].key == k)));
        }
        same_elsewhere(x, y, b, k);
    }
}

proof fn same_with_one_more(
    was: Seq<SeedEntryView>,
    i: int,
    e: SeedEntryView,
    b: Seq<char>,
    k: Seq<char>,
)
    requires
        0 <= i <= was.len(),
        !(e.boundary == b && e.key == k),
    ensures
        seed_at(was.insert(i, e), b, k) == seed_at(was, b, k),
    decreases was.len(),
{
    let now = was.insert(i, e);
    if i == 0 {
        assert(now.drop_first() =~= was);
    } else {
        assert(now[0] == was[0]);
        assert(now.drop_first() =~= was.drop_first().insert(i - 1, e));
        same_with_one_more(was.drop_first(), i - 1, e, b, k);
    }
}

/// Whether a read can be served.
#[derive(Debug, Clone, PartialEq)]
pub enum ReadClassification {
    /// A seed stands for it.
    Reconstructable { value: Json, origin: SeedOrigin },
    /// Nothing stands for it: it must be shown, not served stale.
    NotReconstructable { boundary: String, key: String },
}

impl ReadClassification {
    pub fn is_reconstructable(&self) -> (r: bool)
        ensures
            r == (self is Reconstructable),
    {
        matches!(self, ReadClassification::Reconstructable { .. })
    }
}

/// State that no recording reads but that a replay may reach for.
#[derive(Debug, Clone, PartialEq)]
pub struct AmbientTemplate {
    entries: Vec<SeedEntry>,
}

impl Default for AmbientTemplate {
    fn default() -> (r: AmbientTemplate)
        ensures
            r.seeds() == Seq::<SeedEntryView>::empty(),
    {
        AmbientTemplate::new()
    }
}

impl AmbientTemplate {
    /// What the template gives, in order.
    pub closed spec fn seeds(self) -> Seq<SeedEntryView> {
        seed_views(self.entries@)
    }

    /// A template that gives nothing.
    pub fn new() -> (r: AmbientTemplate)
        ensures
            r.seeds() == Seq::<SeedEntryView>::empty(),
    {
        let template = AmbientTemplate { entries: Vec::new() };
        proof {
            assert(template.seeds() =~= Seq::<SeedEntryView>::empty());
        }
        template
    }

    /// Gives a value for a key.
    pub fn insert(&mut self, boundary: &str, key: &str, value: Json)
        ensures
            final(self).seeds() == old(self).seeds().push(given(boundary@, key@, value@)),
    {
        let ghost was = self.entries@;
        let entry = SeedEntry {
            boundary: boundary.to_owned(),
            key: key.to_owned(),
            value,
            image: None,
            origin: SeedOrigin::Ambient,
        };
        self.entries.push(entry);
        proof {
            assert(seed_views(self.entries@) =~= seed_views(was).push(entry@));
        }
    }

    /// What the template gives, in order.
    pub fn entries(&self) -> (r: &Vec<SeedEntry>)
        ensures
            seed_views(r@) == self.seeds(),
    {
        &self.entries
    }

    pub fn is_empty(&self) -> (r: bool)
        ensures
            r == (self.seeds().len() == 0),
    {
        self.entries.len() == 0
    }

    /// Reads a template: a line for each key, with the boundary, the key and
    /// the value between tabs. Blank lines, lines that start with `#` and lines
    /// with fewer columns give nothing. A value that is no JSON is a text.
    #[verifier::loop_isolation(false)]
    pub fn from_tsv(text: &str) -> (r: AmbientTemplate)
        ensures
            r.seeds() == template_of(split_on(text@, '\n')),
    {
        let lines = split(text, '\n');
        let ghost all = split_on(text@, '\n');
        let mut template = AmbientTemplate::new();
        let mut i: usize = 0;
        proof {
            assert(all.take(0) =~= Seq::<Seq<char>>::empty());
        }
        while i < lines.len()
            invariant
                0 <= i <= lines@.len(),
                template.seeds() == template_of(all.take(i as int)),
            decreases lines@.len() - i,
        {
            proof {
                assert(all.take(i as int + 1).drop_last() =~= all.take(i as int));
                assert(all.take(i as int + 1).last() == texts(lines@)[i as int]);
            }
            if let Some((boundary, key, raw)) = columns(lines[i].as_str()) {
                let parsed = parse_json(raw.as_str());
                let value = template_value(raw.as_str(), parsed);
                template.insert(boundary.as_str(), key.as_str(), value);
            }
            i = i + 1;
        }
        proof {
            assert(all.take(all.len() as int) =~= all);
        }
        template
    }

    /// The defaults of the settlement demo.
    pub fn demo_defaults() -> (r: AmbientTemplate)
        ensures
            r.seeds() == seq![
                given(
                    "redis"@,
                    "settlement_rate_premium"@,
                    JsonView::String("0.20"@),
                ),
            ],
    {
        let mut template = AmbientTemplate::new();
        template.insert("redis", "settlement_rate_premium", Json::text("0.20"));
        proof {
            assert(template.seeds() =~= seq![
                given("redis"@, "settlement_rate_premium"@, JsonView::String("0.20"@)),
            ]);
        }
        template
    }
}

/// A seed of a template.
pub open spec fn given(boundary: Seq<char>, key: Seq<char>, value: JsonView) -> SeedEntryView {
    SeedEntryView { boundary, key, value, image: None, origin: SeedOrigin::Ambient }
}

/// A text before and behind the first separator in it.
pub open spec fn cut(s: Seq<char>, sep: char) -> Option<(Seq<char>, Seq<char>)>
    decreases s.len(),
{
    if s.len() == 0 {
        None
    } else if s[0] == sep {
        Some((Seq::empty(), s.drop_first()))
    } else {
        match cut(s.drop_first(), sep) {
            Some((before, behind)) => Some((seq![s[0]] + before, behind)),
            None => None,
        }
    }
}

/// The boundary, the key and the value in a line of a template.
pub open spec fn line_columns(line: Seq<char>) -> Option<(Seq<char>, Seq<char>, Seq<char>)> {
    let text = trimmed(line);
    if text.len() == 0 || text[0] == '#' {
        None
    } else {
        match cut(text, '\t') {
            Some((boundary, rest)) => match cut(rest, '\t') {
                Some((key, raw)) => Some((trimmed(boundary), trimmed(key), trimmed(raw))),
                None => None,
            },
            None => None,
        }
    }
}

/// The value of a column: the document in it, or else its text.
pub open spec fn column_value(raw: Seq<char>, parsed: Option<JsonView>) -> JsonView {
    match parsed {
        Some(v) => v,
        None => JsonView::String(raw),
    }
}

/// What the lines of a template give.
pub open spec fn template_of(lines: Seq<Seq<char>>) -> Seq<SeedEntryView>
    decreases lines.len(),
{
    if lines.len() == 0 {
        Seq::empty()
    } else {
        let before = template_of(lines.drop_last());
        match line_columns(lines.last()) {
            Some((boundary, key, raw)) => before.push(
                given(boundary, key, column_value(raw, parsed_json(raw))),
            ),
            None => before,
        }
    }
}

/// The value of a column, given the document in it.
pub fn template_value(raw: &str, parsed: Option<Json>) -> (r: Json)
    ensures
        r@ == column_value(raw@, parsed.deep_view()),
{
    match parsed {
        Some(v) => v,
        None => Json::text(raw),
    }
}

proof fn cut_at(s: Seq<char>, sep: char, i: int)
    requires
        0 <= i < s.len(),
        s[i] == sep,
        forall|j: int| 0 <= j < i ==> (#[trigger] s[j]) != sep,
    ensures
        cut(s, sep) == Some((s.take(i), s.skip(i + 1))),
    decreases s.len(),
{
    if i == 0 {
        assert(s.take(0) =~= Seq::<char>::empty());
        assert(s.skip(1) =~= s.drop_first());
    } else {
        let rest = s.drop_first();
        assert(s[0] != sep);
        assert forall|j: int| 0 <= j < i - 1 implies (#[trigger] rest[j]) != sep by {
            assert(s[j + 1] != sep);
        }
        cut_at(rest, sep, i - 1);
        assert(seq![s[0]] + rest.take(i - 1) =~= s.take(i));
        assert(rest.skip(i) =~= s.skip(i + 1));
    }
}

proof fn cut_nowhere(s: Seq<char>, sep: char)
    requires
        forall|j: int| 0 <= j < s.len() ==> (#[trigger] s[j]) != sep,
    ensures
        cut(s, sep) is None,
    decreases s.len(),
{
    if s.len() > 0 {
        assert(s[0] != sep);
        let rest = s.drop_first();
        assert forall|j: int| 0 <= j < rest.len() implies (#[trigger] rest[j]) != sep by {
            assert(s[j + 1] != sep);
        }
        cut_nowhere(rest, sep);
    }
}

#[verifier::loop_isolation(false)]
fn cut_text(s: &str, sep: char) -> (r: Option<(String, String)>)
    ensures
        match r {
            Some((before, behind)) => cut(s@, sep) == Some((before@, behind@)),
            None => cut(s@, sep) is None,
        },
{
    let chars = chars_of(s);
    let mut i: usize = 0;
    while i < chars.len()
        invariant
            0 <= i <= chars@.len(),
            forall|j: int| 0 <= j < i ==> (#[trigger] s@[j]) != sep,
        decreases chars@.len() - i,
    {
        if chars[i] == sep {
            proof {
                cut_at(s@, sep, i as int);
                assert(s@.subrange(0, i as int) =~= s@.take(i as int));
                assert(s@.subrange(i as int + 1, s@.len() as int) =~= s@.skip(i as int + 1));
            }
            return Some((text_of(&chars, 0, i), text_of(&chars, i + 1, chars.len())));
        }
        i = i + 1;
    }
    proof {
        cut_nowhere(s@, sep);
    }
    None
}

/// The boundary, the key and the value in a line of a template.
pub fn columns(line: &str) -> (r: Option<(String, String, String)>)
    ensures
        match r {
            Some((boundary, key, raw)) => line_columns(line@) == Some((boundary@, key@, raw@)),
            None => line_columns(line@) is None,
        },
{
    let text = trim(line);
    let chars = chars_of(text.as_str());
    if chars.len() == 0 || chars[0] == '#' {
        return None;
    }
    match cut_text(text.as_str(), '\t') {
        Some((boundary, rest)) => match cut_text(rest.as_str(), '\t') {
            Some((key, raw)) => Some(
                (trim(boundary.as_str()), trim(key.as_str()), trim(raw.as_str())),
            ),
            None => None,
        },
        None => None,
    }
}

/// What a plan holds for a key is a seed of that boundary and that key, and every
/// seed of a plan is held for its own.
pub proof fn seeds_are_held_under_their_keys(
    s: Seq<SeedEntryView>,
    boundary: Seq<char>,
    key: Seq<char>,
)
    requires
        in_key_order(s),
    ensures
        seed_at(s, boundary, key) matches Some(e) ==> e.boundary == boundary && e.key == key
            && s.contains(e),
        forall|i: int|
            0 <= i < s.len() && (#[trigger] s[i]).boundary == boundary && s[i].key == key
                ==> seed_at(s, boundary, key) == Some(s[i]),
        (forall|i: int|
            0 <= i < s.len() ==> !((#[trigger] s[i]).boundary == boundary && s[i].key == key))
            ==> seed_at(s, boundary, key) is None,
{
    found_seed_is_one_of_them(s, boundary, key);
    assert forall|i: int|
        0 <= i < s.len() && (#[trigger] s[i]).boundary == boundary && s[i].key == key implies seed_at(
        s,
        boundary,
        key,
    ) == Some(s[i]) by {
        seed_at_the_place(s, i);
    }
    if forall|i: int|
        0 <= i < s.len() ==> !((#[trigger] s[i]).boundary == boundary && s[i].key == key) {
        seed_at_no_place(s, boundary, key);
    }
}

proof fn found_seed_is_one_of_them(s: Seq<SeedEntryView>, boundary: Seq<char>, key: Seq<char>)
    ensures
        seed_at(s, boundary, key) matches Some(e) ==> e.boundary == boundary && e.key == key
            && s.contains(e),
    decreases s.len(),
{
    if s.len() > 0 {
        if s[0].boundary == boundary && s[0].key == key {
            assert(s.contains(s[0]));
        } else {
            let rest = s.drop_first();
            found_seed_is_one_of_them(rest, boundary, key);
            if seed_at(rest, boundary, key) is Some {
                let e = seed_at(rest, boundary, key)->0;
                let i = choose|i: int| 0 <= i < rest.len() && rest[i] == e;
                assert(s[i + 1] == e);
            }
        }
    }
}

/// A template fills a key that the recording did not read with the last value it
/// gives for it, whatever stands around that, and leaves every other key as it was.
pub proof fn the_last_given_value_fills(
    existing: Option<SeedEntryView>,
    template: Seq<SeedEntryView>,
    boundary: Seq<char>,
    key: Seq<char>,
)
    requires
        forall|j: int| 0 <= j < template.len() ==> (#[trigger] template[j]).origin is Ambient,
    ensures
        forall|i: int|
            0 <= i < template.len() && (#[trigger] template[i]).boundary == boundary
                && template[i].key == key && (forall|j: int|
                i < j < template.len() ==> !((#[trigger] template[j]).boundary == boundary
                    && template[j].key == key)) && !(existing is Some
                && existing->0.origin is Recording) ==> filled(existing, template, boundary, key)
                == Some(template[i]),
        (forall|j: int|
            0 <= j < template.len() ==> !((#[trigger] template[j]).boundary == boundary
                && template[j].key == key)) ==> filled(existing, template, boundary, key)
            == existing,
        !(existing is Some && existing->0.origin is Recording) ==> !(filled(
            existing,
            template,
            boundary,
            key,
        ) is Some && filled(existing, template, boundary, key)->0.origin is Recording),
        existing is Some && existing->0.origin is Recording ==> filled(
            existing,
            template,
            boundary,
            key,
        ) == existing,
    decreases template.len(),
{
    if template.len() > 0 {
        let before = template.drop_last();
        let n = template.len() - 1;
        assert forall|j: int| 0 <= j < before.len() implies (
        #[trigger] before[j]).origin is Ambient by {
            assert(template[j].origin is Ambient);
        }
        the_last_given_value_fills(existing, before, boundary, key);
        assert(template[n].origin is Ambient);
        assert forall|i: int|
            0 <= i < template.len() && (#[trigger] template[i]).boundary == boundary
                && template[i].key == key && (forall|j: int|
                i < j < template.len() ==> !((#[trigger] template[j]).boundary == boundary
                    && template[j].key == key)) && !(existing is Some
                && existing->0.origin is Recording) implies filled(
            existing,
            template,
            boundary,
            key,
        ) == Some(template[i]) by {
            if i < n {
                assert(!(template[n].boundary == boundary && template[n].key == key));
                assert(before[i] == template[i]);
                assert forall|j: int| i < j < before.len() implies !((
                #[trigger] before[j]).boundary == boundary && before[j].key == key) by {
                    assert(!(template[j].boundary == boundary && template[j].key == key));
                }
            }
        }
        if forall|j: int|
            0 <= j < template.len() ==> !((#[trigger] template[j]).boundary == boundary
                && template[j].key == key) {
            assert forall|j: int| 0 <= j < before.len() implies !((
            #[trigger] before[j]).boundary == boundary && before[j].key == key) by {
                assert(!(template[j].boundary == boundary && template[j].key == key));
            }
        }
    }
}

/// A text is cut at the first separator in it, and only there; a text without one
/// is not cut.
pub proof fn texts_are_cut_once(s: Seq<char>, sep: char)
    ensures
        match cut(s, sep) {
            Some((before, behind)) => s == before.push(sep) + behind && !before.contains(sep),
            None => !s.contains(sep),
        },
{
    if s.contains(sep) {
        s.index_of_first_ensures(sep);
        let i = s.index_of_first(sep)->0;
        assert forall|j: int| 0 <= j < i implies (#[trigger] s[j]) != sep by {}
        cut_at(s, sep, i);
        assert(s =~= s.take(i).push(sep) + s.skip(i + 1));
        if s.take(i).contains(sep) {
            let j = choose|j: int| 0 <= j < i && s.take(i)[j] == sep;
            assert(s[j] == sep);
        }
    } else {
        assert forall|j: int| 0 <= j < s.len() implies (#[trigger] s[j]) != sep by {
            if s[j] == sep {
                assert(s.contains(sep));
            }
        }
        cut_nowhere(s, sep);
    }
}

/// A line of a template gives what stands before its first tab, between its first
/// two, and behind them, each without the white space around it; a blank line, a
/// comment and a line with fewer tabs give nothing.
pub proof fn lines_give_their_columns(
    line: Seq<char>,
    boundary: Seq<char>,
    key: Seq<char>,
    raw: Seq<char>,
)
    ensures
        trimmed(line) == boundary.push('\t') + (key.push('\t') + raw) && trimmed(line)[0] != '#'
            && !boundary.contains('\t') && !key.contains('\t') ==> line_columns(line) == Some(
            (trimmed(boundary), trimmed(key), trimmed(raw)),
        ),
        trimmed(line).len() == 0 ==> line_columns(line) is None,
        trimmed(line).len() > 0 && trimmed(line)[0] == '#' ==> line_columns(line) is None,
        !trimmed(line).contains('\t') ==> line_columns(line) is None,
        trimmed(line) == boundary.push('\t') + raw && !boundary.contains('\t') && !raw.contains(
            '\t',
        ) ==> line_columns(line) is None,
{
    let text = trimmed(line);
    texts_are_cut_once(text, '\t');
    if text == boundary.push('\t') + (key.push('\t') + raw) && !boundary.contains('\t')
        && !key.contains('\t') {
        cut_behind(boundary, key.push('\t') + raw, '\t');
        cut_behind(key, raw, '\t');
    }
    if text == boundary.push('\t') + raw && !boundary.contains('\t') && !raw.contains('\t') {
        cut_behind(boundary, raw, '\t');
        texts_are_cut_once(raw, '\t');
        if cut(raw, '\t') is Some {
            let (a, b) = cut(raw, '\t')->0;
            assert(raw[a.len() as int] == '\t');
        }
    }
    if !text.contains('\t') && cut(text, '\t') is Some {
        let (a, b) = cut(text, '\t')->0;
        assert(text[a.len() as int] == '\t');
    }
}

proof fn cut_behind(a: Seq<char>, b: Seq<char>, sep: char)
    requires
        !a.contains(sep),
    ensures
        cut(a.push(sep) + b, sep) == Some((a, b)),
{
    let s = a.push(sep) + b;
    let i = a.len() as int;
    assert(s[i] == sep);
    assert forall|j: int| 0 <= j < i implies (#[trigger] s[j]) != sep by {
        assert(s[j] == a[j]);
        if a[j] == sep {
            assert(a.contains(sep));
        }
    }
    cut_at(s, sep, i);
    assert(s.take(i) =~= a);
    assert(s.skip(i + 1) =~= b);
}

/// Every line of a template is read, in order: the lines of two templates put
/// together give what the first gives and then what the second gives, and a line
/// that has columns gives its value, the document in it or else its text.
pub proof fn every_line_is_read(a: Seq<Seq<char>>, b: Seq<Seq<char>>, line: Seq<char>)
    ensures
        template_of(a + b) == template_of(a) + template_of(b),
        line_columns(line) matches Some((boundary, key, raw)) ==> template_of(seq![line]).len() == 1
            && template_of(seq![line])[0].boundary == boundary && template_of(seq![line])[0].key
            == key && template_of(seq![line])[0].origin is Ambient && template_of(
            seq![line],
        )[0].image is None && template_of(seq![line])[0].value == (match parsed_json(raw) {
            Some(v) => v,
            None => JsonView::String(raw),
        }),
        line_columns(line) is None ==> template_of(seq![line]).len() == 0,
    decreases b.len(),
{
    let one = seq![line];
    assert(one.drop_last() =~= Seq::<Seq<char>>::empty());
    assert(template_of(one.drop_last()).len() == 0);
    if b.len() == 0 {
        assert(a + b =~= a);
        assert(template_of(a) + template_of(b) =~= template_of(a));
    } else {
        every_line_is_read(a, b.drop_last(), line);
        assert((a + b).drop_last() =~= a + b.drop_last());
        assert((a + b).last() == b.last());
        assert(template_of(a + b) =~= template_of(a) + template_of(b));
    }
}

/// Two seeds say the same only if they agree in all they hold.
pub proof fn seeds_say_all_they_hold(a: SeedEntry, b: SeedEntry)
    ensures
        a@ == b@ <==> a.boundary@ == b.boundary@ && a.key@ == b.key@ && a.value@ == b.value@
            && a.image.deep_view() == b.image.deep_view() && a.origin == b.origin,
{
}

/// Seeds stand by their boundary and, within one, by their key, in the order of
/// texts; no two seeds of a plan share both.
pub proof fn seeds_stand_by_boundary_and_key(s: Seq<SeedEntryView>, i: int, j: int)
    requires
        in_key_order(s),
        0 <= i < j < s.len(),
    ensures
        text_le(s[i].boundary, s[j].boundary),
        s[i].boundary == s[j].boundary ==> text_le(s[i].key, s[j].key) && s[i].key != s[j].key,
{
    assert(key_before(s[i], s[j]));
    text_le_is_total(s[i].boundary, s[j].boundary);
}

} // verus!
