//! Writing captured values as JSON, in their canonical form.

use vstd::prelude::*;
use crate::canonical::{
    mark_if_ambiguous, marked, option_read, options_are_read_back, present_marker,
};
use crate::json::{
    distinct_keys, group_json_view, items_view, members_are_put_in, members_view, render_json,
    rendered_json, with_member, Json, JsonView,
};
use crate::order::{
    arranged, order_by_text, order_is_stable, order_of, order_only_rearranges,
    sorted_texts_depend_on_the_multiset, text_le,
};
use crate::text::texts;

verus! {

/// A value as it was captured, with what its types say of its order.
#[derive(Debug)]
pub enum Captured {
    /// Nothing: a unit, or what is absent.
    Null,
    Bool(bool),
    /// A number, by its text.
    Number(String),
    Text(String),
    /// What may be absent and is present.
    Present(Box<Captured>),
    Sequence { items: Vec<Captured>, unordered: bool },
    Keyed { entries: Vec<(Captured, Captured)>, unordered: bool },
    /// A structure, with its fields as they are declared.
    Record { fields: Vec<(String, Captured)> },
    /// A variant with something in it.
    Variant { name: String, inner: Box<Captured> },
}

/// A value as the key of a member: a string, or a scalar by its text.
pub open spec fn key_text(v: JsonView) -> Option<Seq<char>> {
    match v {
        JsonView::String(s) => Some(s),
        JsonView::Number(n) => Some(n),
        JsonView::Bool(b) => Some(
            if b {
                "true"@
            } else {
                "false"@
            },
        ),
        _ => None,
    }
}

/// The texts of values.
pub open spec fn renderings(s: Seq<JsonView>) -> Seq<Seq<char>> {
    s.map_values(|v: JsonView| rendered_json(v))
}

/// The keys of members.
pub open spec fn member_keys(s: Seq<(Seq<char>, JsonView)>) -> Seq<Seq<char>> {
    s.map_values(|m: (Seq<char>, JsonView)| m.0)
}

/// Values in the order of their texts.
pub open spec fn by_rendering(s: Seq<JsonView>) -> Seq<JsonView> {
    arranged(s, order_of(renderings(s)))
}

/// Members in the order of their keys; members with one key as they came.
pub open spec fn by_key(s: Seq<(Seq<char>, JsonView)>) -> Seq<(Seq<char>, JsonView)> {
    arranged(s, order_of(member_keys(s)))
}

/// The object of members, put in one after the other. Of two with one key the
/// later one stands.
pub open spec fn object_of(s: Seq<(Seq<char>, JsonView)>) -> JsonView
    decreases s.len(),
{
    if s.len() == 0 {
        JsonView::Object(Seq::empty())
    } else {
        with_member(object_of(s.drop_last()), s.last().0, s.last().1)
    }
}

/// A captured value as JSON; nothing where a map has a key that JSON has not.
pub open spec fn written(c: Captured) -> Option<JsonView>
    decreases c,
{
    match c {
        Captured::Null => Some(JsonView::Null),
        Captured::Bool(b) => Some(JsonView::Bool(b)),
        Captured::Number(n) => Some(JsonView::Number(n@)),
        Captured::Text(t) => Some(JsonView::String(t@)),
        Captured::Present(inner) => match written(*inner) {
            Some(v) => Some(marked(v)),
            None => None,
        },
        Captured::Sequence { items, unordered } => match written_items(items@) {
            Some(s) => Some(
                JsonView::Array(
                    if unordered {
                        by_rendering(s)
                    } else {
                        s
                    },
                ),
            ),
            None => None,
        },
        Captured::Keyed { entries, unordered } => match written_entries(entries@) {
            Some(s) => Some(
                object_of(
                    if unordered {
                        by_key(s)
                    } else {
                        s
                    },
                ),
            ),
            None => None,
        },
        Captured::Record { fields } => match written_fields(fields@) {
            Some(s) => Some(object_of(s)),
            None => None,
        },
        Captured::Variant { name, inner } => match written(*inner) {
            Some(v) => Some(JsonView::Object(seq![(name@, v)])),
            None => None,
        },
    }
}

/// Captured values as JSON.
pub open spec fn written_items(s: Seq<Captured>) -> Option<Seq<JsonView>>
    decreases s,
{
    if s.len() == 0 {
        Some(Seq::empty())
    } else {
        match (written_items(s.drop_last()), written(s.last())) {
            (Some(before), Some(v)) => Some(before.push(v)),
            _ => None,
        }
    }
}

/// Captured entries as members.
pub open spec fn written_entries(s: Seq<(Captured, Captured)>) -> Option<
    Seq<(Seq<char>, JsonView)>,
>
    decreases s,
{
    if s.len() == 0 {
        Some(Seq::empty())
    } else {
        match (written_entries(s.drop_last()), written(s.last().0), written(s.last().1)) {
            (Some(before), Some(k), Some(v)) => match key_text(k) {
                Some(key) => Some(before.push((key, v))),
                None => None,
            },
            _ => None,
        }
    }
}

/// Captured fields as members.
pub open spec fn written_fields(s: Seq<(String, Captured)>) -> Option<Seq<(Seq<char>, JsonView)>>
    decreases s,
{
    if s.len() == 0 {
        Some(Seq::empty())
    } else {
        match (written_fields(s.drop_last()), written(s.last().1)) {
            (Some(before), Some(v)) => Some(before.push((s.last().0@, v))),
            _ => None,
        }
    }
}

/// A value as the key of a member.
pub fn map_key(key: Json) -> (r: Option<String>)
    ensures
        r.deep_view() == key_text(key@),
{
    match key {
        Json::String(s) => Some(s),
        Json::Number(n) => Some(n),
        Json::Bool(b) => if b {
            Some("true".to_owned())
        } else {
            Some("false".to_owned())
        },
        _ => None,
    }
}

/// Values in the order of the texts given for them; values with one text as
/// they came.
#[verifier::loop_isolation(false)]
pub fn sort_by_texts(items: &Vec<Json>, keys: &Vec<String>) -> (r: Vec<Json>)
    requires
        items@.len() == keys@.len(),
    ensures
        items_view(r@) == arranged(items_view(items@), order_of(texts(keys@))),
{
    let order = order_by_text(keys);
    let ghost all = items_view(items@);
    let ghost want = arranged(all, order@);
    let mut out: Vec<Json> = Vec::new();
    let mut i: usize = 0;
    while i < order.len()
        invariant
            0 <= i <= order@.len(),
            items_view(out@) =~= want.take(i as int),
        decreases order@.len() - i,
    {
        let ghost was = out@;
        let one = items[order[i]].clone();
        out.push(one);
        proof {
            assert(all[order@[i as int] as int] == one@);
            assert(items_view(out@) =~= items_view(was).push(one@));
        }
        i = i + 1;
    }
    proof {
        assert(want.take(want.len() as int) =~= want);
    }
    out
}

/// Values in the order of their texts. Nothing is dropped: values that are
/// alike all stay.
#[verifier::loop_isolation(false)]
pub fn sort_canonically(items: &Vec<Json>) -> (r: Vec<Json>)
    ensures
        items_view(r@) == by_rendering(items_view(items@)),
{
    let ghost all = items_view(items@);
    let mut keys: Vec<String> = Vec::new();
    let mut i: usize = 0;
    while i < items.len()
        invariant
            0 <= i <= items@.len(),
            texts(keys@) =~= renderings(all).take(i as int),
        decreases items@.len() - i,
    {
        let ghost was = keys@;
        let text = render_json(&items[i]);
        keys.push(text);
        proof {
            assert(all[i as int] == items@[i as int]@);
            assert(texts(keys@) =~= texts(was).push(text@));
        }
        i = i + 1;
    }
    proof {
        assert(renderings(all).take(all.len() as int) =~= renderings(all));
    }
    sort_by_texts(items, &keys)
}

/// Members in the order of their keys; members with one key as they came.
#[verifier::loop_isolation(false)]
pub fn sort_map_entries(entries: &Vec<(String, Json)>) -> (r: Vec<(String, Json)>)
    ensures
        members_view(r@) == by_key(members_view(entries@)),
{
    let ghost all = members_view(entries@);
    let mut keys: Vec<String> = Vec::new();
    let mut i: usize = 0;
    while i < entries.len()
        invariant
            0 <= i <= entries@.len(),
            texts(keys@) =~= member_keys(all).take(i as int),
        decreases entries@.len() - i,
    {
        let ghost was = keys@;
        keys.push(entries[i].0.clone());
        proof {
            assert(all[i as int].0 == entries@[i as int].0@);
            assert(texts(keys@) =~= texts(was).push(all[i as int].0));
        }
        i = i + 1;
    }
    proof {
        assert(member_keys(all).take(all.len() as int) =~= member_keys(all));
    }
    let order = order_by_text(&keys);
    let ghost want = arranged(all, order@);
    let mut out: Vec<(String, Json)> = Vec::new();
    let mut k: usize = 0;
    while k < order.len()
        invariant
            0 <= k <= order@.len(),
            members_view(out@) =~= want.take(k as int),
        decreases order@.len() - k,
    {
        let ghost was = out@;
        let at = order[k];
        let one = (entries[at].0.clone(), entries[at].1.clone());
        out.push(one);
        proof {
            assert(all[at as int] == (one.0@, one.1@));
            assert(members_view(out@) =~= members_view(was).push((one.0@, one.1@)));
        }
        k = k + 1;
    }
    proof {
        assert(want.take(want.len() as int) =~= want);
    }
    out
}

/// The object of members. Of two with one key the later one stands, at the
/// place of the earlier one.
#[verifier::loop_isolation(false)]
pub fn finish_map(entries: Vec<(String, Json)>, sort_keys: bool) -> (r: Json)
    ensures
        r@ == object_of(
            if sort_keys {
                by_key(members_view(entries@))
            } else {
                members_view(entries@)
            },
        ),
{
    broadcast use group_json_view;

    let entries = if sort_keys {
        sort_map_entries(&entries)
    } else {
        entries
    };
    let ghost all = members_view(entries@);
    let none: Vec<(String, Json)> = Vec::new();
    proof {
        assert(members_view(none@) =~= Seq::<(Seq<char>, JsonView)>::empty());
        assert(all.take(0) =~= Seq::<(Seq<char>, JsonView)>::empty());
    }
    let mut out = Json::Object(none);
    let mut i: usize = 0;
    while i < entries.len()
        invariant
            0 <= i <= entries@.len(),
            out@ == object_of(all.take(i as int)),
        decreases entries@.len() - i,
    {
        proof {
            assert(all.take(i as int + 1).drop_last() =~= all.take(i as int));
            assert(all.take(i as int + 1).last() == (
                entries@[i as int].0@,
                entries@[i as int].1@,
            ));
        }
        out.insert(entries[i].0.clone(), entries[i].1.clone());
        i = i + 1;
    }
    proof {
        assert(all.take(all.len() as int) =~= all);
    }
    out
}

/// A captured value as JSON; nothing where a map has a key that JSON has not.
#[verifier::loop_isolation(false)]
pub fn to_value(c: &Captured) -> (r: Option<Json>)
    ensures
        r.deep_view() == written(*c),
    decreases c,
{
    broadcast use group_json_view;

    match c {
        Captured::Null => Some(Json::Null),
        Captured::Bool(b) => Some(Json::Bool(*b)),
        Captured::Number(n) => Some(Json::Number(n.clone())),
        Captured::Text(t) => Some(Json::String(t.clone())),
        Captured::Present(inner) => match to_value(inner) {
            Some(v) => Some(mark_if_ambiguous(v)),
            None => None,
        },
        Captured::Sequence { items, unordered } => {
            let ghost all = items@;
            let mut out: Vec<Json> = Vec::new();
            let mut i: usize = 0;
            proof {
                assert(all.take(0) =~= Seq::<Captured>::empty());
                assert(items_view(out@) =~= Seq::<JsonView>::empty());
            }
            while i < items.len()
                invariant
                    0 <= i <= items@.len(),
                    written_items(all.take(i as int)) == Some(items_view(out@)),
                decreases items@.len() - i,
            {
                let item = &items[i];
                let ghost was = out@;
                proof {
                    assert(decreases_to!(c => items@[i as int]));
                    assert(all.take(i as int + 1).drop_last() =~= all.take(i as int));
                    assert(all.take(i as int + 1).last() == *item);
                }
                match to_value(item) {
                    Some(v) => {
                        out.push(v);
                        proof {
                            assert(items_view(out@) =~= items_view(was).push(v@));
                        }
                    },
                    None => {
                        proof {
                            items_stop(all, i as int + 1);
                        }
                        return None;
                    },
                }
                i = i + 1;
            }
            proof {
                assert(all.take(all.len() as int) =~= all);
            }
            if *unordered {
                out = sort_canonically(&out);
            }
            Some(Json::Array(out))
        },
        Captured::Keyed { entries, unordered } => {
            let ghost all = entries@;
            let mut out: Vec<(String, Json)> = Vec::new();
            let mut i: usize = 0;
            proof {
                assert(all.take(0) =~= Seq::<(Captured, Captured)>::empty());
                assert(members_view(out@) =~= Seq::<(Seq<char>, JsonView)>::empty());
            }
            while i < entries.len()
                invariant
                    0 <= i <= entries@.len(),
                    written_entries(all.take(i as int)) == Some(members_view(out@)),
                decreases entries@.len() - i,
            {
                let entry = &entries[i];
                let ghost was = out@;
                proof {
                    assert(decreases_to!(c => entries@[i as int]));
                    assert(decreases_to!(entries@[i as int] => entries@[i as int].0));
                    assert(decreases_to!(entries@[i as int] => entries@[i as int].1));
                    assert(all.take(i as int + 1).drop_last() =~= all.take(i as int));
                    assert(all.take(i as int + 1).last() == *entry);
                }
                let key = match to_value(&entry.0) {
                    Some(k) => map_key(k),
                    None => None,
                };
                match (key, to_value(&entry.1)) {
                    (Some(k), Some(v)) => {
                        out.push((k, v));
                        proof {
                            assert(members_view(out@) =~= members_view(was).push((k@, v@)));
                        }
                    },
                    _ => {
                        proof {
                            entries_stop(all, i as int + 1);
                        }
                        return None;
                    },
                }
                i = i + 1;
            }
            proof {
                assert(all.take(all.len() as int) =~= all);
            }
            Some(finish_map(out, *unordered))
        },
        Captured::Record { fields } => {
            let ghost all = fields@;
            let mut out: Vec<(String, Json)> = Vec::new();
            let mut i: usize = 0;
            proof {
                assert(all.take(0) =~= Seq::<(String, Captured)>::empty());
                assert(members_view(out@) =~= Seq::<(Seq<char>, JsonView)>::empty());
            }
            while i < fields.len()
                invariant
                    0 <= i <= fields@.len(),
                    written_fields(all.take(i as int)) == Some(members_view(out@)),
                decreases fields@.len() - i,
            {
                let field = &fields[i];
                let ghost was = out@;
                proof {
                    assert(decreases_to!(c => fields@[i as int]));
                    assert(decreases_to!(fields@[i as int] => fields@[i as int].1));
                    assert(all.take(i as int + 1).drop_last() =~= all.take(i as int));
                    assert(all.take(i as int + 1).last() == *field);
                }
                match to_value(&field.1) {
                    Some(v) => {
                        out.push((field.0.clone(), v));
                        proof {
                            assert(members_view(out@) =~= members_view(was).push((field.0@, v@)));
                        }
                    },
                    None => {
                        proof {
                            fields_stop(all, i as int + 1);
                        }
                        return None;
                    },
                }
                i = i + 1;
            }
            proof {
                assert(all.take(all.len() as int) =~= all);
            }
            Some(finish_map(out, false))
        },
        Captured::Variant { name, inner } => match to_value(inner) {
            Some(v) => {
                let ghost value = v@;
                let mut members: Vec<(String, Json)> = Vec::new();
                members.push((name.clone(), v));
                proof {
                    assert(members_view(members@) =~= seq![(name@, value)]);
                }
                Some(Json::Object(members))
            },
            None => None,
        },
    }
}

proof fn items_stop(s: Seq<Captured>, n: int)
    requires
        0 <= n <= s.len(),
        written_items(s.take(n)) is None,
    ensures
        written_items(s) is None,
    decreases s.len() - n,
{
    if n < s.len() {
        assert(s.take(n + 1).drop_last() =~= s.take(n));
        items_stop(s, n + 1);
    } else {
        assert(s.take(n) =~= s);
    }
}

proof fn entries_stop(s: Seq<(Captured, Captured)>, n: int)
    requires
        0 <= n <= s.len(),
        written_entries(s.take(n)) is None,
    ensures
        written_entries(s) is None,
    decreases s.len() - n,
{
    if n < s.len() {
        assert(s.take(n + 1).drop_last() =~= s.take(n));
        entries_stop(s, n + 1);
    } else {
        assert(s.take(n) =~= s);
    }
}

proof fn fields_stop(s: Seq<(String, Captured)>, n: int)
    requires
        0 <= n <= s.len(),
        written_fields(s.take(n)) is None,
    ensures
        written_fields(s) is None,
    decreases s.len() - n,
{
    if n < s.len() {
        assert(s.take(n + 1).drop_last() =~= s.take(n));
        fields_stop(s, n + 1);
    } else {
        assert(s.take(n) =~= s);
    }
}

/// A captured value as JSON; null where a map has a key that JSON has not.
pub fn to_value_or_null(c: &Captured) -> (r: Json)
    ensures
        r@ == (match written(*c) {
            Some(v) => v,
            None => JsonView::Null,
        }),
{
    match to_value(c) {
        Some(v) => v,
        None => Json::Null,
    }
}

/// Putting values in the order of their texts drops none and adds none: values
/// that are alike all stay.
pub proof fn sorting_keeps_every_member(s: Seq<JsonView>)
    requires
        s.len() <= usize::MAX,
    ensures
        by_rendering(s).to_multiset() == s.to_multiset(),
{
    order_only_rearranges(s, renderings(s));
}

proof fn renderings_go_by_the_multiset(a: Seq<JsonView>, b: Seq<JsonView>)
    requires
        a.to_multiset() == b.to_multiset(),
    ensures
        renderings(a).to_multiset() == renderings(b).to_multiset(),
    decreases a.len(),
{
    broadcast use vstd::seq_lib::group_to_multiset_ensures;

    assert(a.len() == a.to_multiset().len());
    assert(b.len() == b.to_multiset().len());
    if a.len() == 0 {
        assert(renderings(a) =~= renderings(b));
    } else {
        let last = a.last();
        let fewer = a.drop_last();
        assert(a =~= fewer.push(last));
        assert(a.contains(last));
        assert(b.to_multiset().count(last) > 0);
        assert(b.contains(last));
        let j = choose|j: int| 0 <= j < b.len() && b[j] == last;
        let rest = b.remove(j);
        assert(rest.to_multiset() =~= fewer.to_multiset());
        renderings_go_by_the_multiset(fewer, rest);
        let r = rendered_json(last);
        assert(renderings(a) =~= renderings(fewer).push(r));
        assert(renderings(rest) =~= renderings(b).remove(j));
        assert(renderings(b)[j] == r);
        assert(renderings(a).to_multiset() =~= renderings(b).to_multiset());
    }
}

/// A collection without an order is written alike in whatever order it was
/// walked, as long as its members that are written alike are the same.
pub proof fn the_order_of_walking_is_not_written(a: Seq<JsonView>, b: Seq<JsonView>)
    requires
        a.to_multiset() == b.to_multiset(),
        a.len() <= usize::MAX,
        forall|u: JsonView, v: JsonView|
            a.contains(u) && a.contains(v) && #[trigger] rendered_json(u) == #[trigger] rendered_json(
                v,
            ) ==> u == v,
    ensures
        by_rendering(a) == by_rendering(b),
{
    broadcast use vstd::seq_lib::group_to_multiset_ensures;

    renderings_go_by_the_multiset(a, b);
    assert(a.len() == a.to_multiset().len());
    assert(b.len() == b.to_multiset().len());
    let ra = renderings(a);
    let rb = renderings(b);
    sorted_texts_depend_on_the_multiset(ra, rb);
    order_is_stable(ra);
    order_is_stable(rb);
    let x = by_rendering(a);
    let y = by_rendering(b);
    assert forall|i: int| 0 <= i < x.len() implies x[i] == y[i] by {
        let p = order_of(ra)[i];
        let q = order_of(rb)[i];
        assert(arranged(ra, order_of(ra))[i] == ra[p as int]);
        assert(arranged(rb, order_of(rb))[i] == rb[q as int]);
        assert(x[i] == a[p as int]);
        assert(y[i] == b[q as int]);
        assert(b.contains(y[i]));
        assert(a.to_multiset().count(y[i]) > 0);
        assert(a.contains(y[i]));
        assert(a.contains(x[i]));
        assert(rendered_json(x[i]) == rendered_json(y[i]));
    }
    assert(x =~= y);
}

/// A captured value as JSON with nothing settled: every collection as it was
/// walked, and what is present as it is.
pub open spec fn plain(c: Captured) -> Option<JsonView>
    decreases c,
{
    match c {
        Captured::Null => Some(JsonView::Null),
        Captured::Bool(b) => Some(JsonView::Bool(b)),
        Captured::Number(n) => Some(JsonView::Number(n@)),
        Captured::Text(t) => Some(JsonView::String(t@)),
        Captured::Present(inner) => plain(*inner),
        Captured::Sequence { items, .. } => match plain_items(items@) {
            Some(s) => Some(JsonView::Array(s)),
            None => None,
        },
        Captured::Keyed { entries, .. } => match plain_entries(entries@) {
            Some(s) => Some(object_of(s)),
            None => None,
        },
        Captured::Record { fields } => match plain_fields(fields@) {
            Some(s) => Some(object_of(s)),
            None => None,
        },
        Captured::Variant { name, inner } => match plain(*inner) {
            Some(v) => Some(JsonView::Object(seq![(name@, v)])),
            None => None,
        },
    }
}

/// Captured values as JSON with nothing settled.
pub open spec fn plain_items(s: Seq<Captured>) -> Option<Seq<JsonView>>
    decreases s,
{
    if s.len() == 0 {
        Some(Seq::empty())
    } else {
        match (plain_items(s.drop_last()), plain(s.last())) {
            (Some(before), Some(v)) => Some(before.push(v)),
            _ => None,
        }
    }
}

/// Captured entries as members with nothing settled.
pub open spec fn plain_entries(s: Seq<(Captured, Captured)>) -> Option<Seq<(Seq<char>, JsonView)>>
    decreases s,
{
    if s.len() == 0 {
        Some(Seq::empty())
    } else {
        match (plain_entries(s.drop_last()), plain(s.last().0), plain(s.last().1)) {
            (Some(before), Some(k), Some(v)) => match key_text(k) {
                Some(key) => Some(before.push((key, v))),
                None => None,
            },
            _ => None,
        }
    }
}

/// Captured fields as members with nothing settled.
pub open spec fn plain_fields(s: Seq<(String, Captured)>) -> Option<Seq<(Seq<char>, JsonView)>>
    decreases s,
{
    if s.len() == 0 {
        Some(Seq::empty())
    } else {
        match (plain_fields(s.drop_last()), plain(s.last().1)) {
            (Some(before), Some(v)) => Some(before.push((s.last().0@, v))),
            _ => None,
        }
    }
}

/// Whether there is nothing to settle in a captured value: no collection
/// without an order, and nothing present that would be written as null or as
/// the marker.
pub open spec fn settled(c: Captured) -> bool
    decreases c,
{
    match c {
        Captured::Present(inner) => settled(*inner) && (plain(*inner) matches Some(v) ==> !(
        v is Null) && !present_marker(v)),
        Captured::Sequence { items, unordered } => !unordered && settled_items(items@),
        Captured::Keyed { entries, unordered } => !unordered && settled_entries(entries@),
        Captured::Record { fields } => settled_fields(fields@),
        Captured::Variant { inner, .. } => settled(*inner),
        _ => true,
    }
}

pub open spec fn settled_items(s: Seq<Captured>) -> bool
    decreases s,
{
    s.len() > 0 ==> settled_items(s.drop_last()) && settled(s.last())
}

pub open spec fn settled_entries(s: Seq<(Captured, Captured)>) -> bool
    decreases s,
{
    s.len() > 0 ==> settled_entries(s.drop_last()) && settled(s.last().0) && settled(s.last().1)
}

pub open spec fn settled_fields(s: Seq<(String, Captured)>) -> bool
    decreases s,
{
    s.len() > 0 ==> settled_fields(s.drop_last()) && settled(s.last().1)
}

/// A captured value with nothing to settle is written as it is.
pub proof fn settled_values_are_written_plainly(c: Captured)
    requires
        settled(c),
    ensures
        written(c) == plain(c),
    decreases c,
{
    match c {
        Captured::Present(inner) => settled_values_are_written_plainly(*inner),
        Captured::Sequence { items, .. } => settled_items_are_written_plainly(items@),
        Captured::Keyed { entries, .. } => settled_entries_are_written_plainly(entries@),
        Captured::Record { fields } => settled_fields_are_written_plainly(fields@),
        Captured::Variant { inner, .. } => settled_values_are_written_plainly(*inner),
        _ => {},
    }
}

proof fn settled_items_are_written_plainly(s: Seq<Captured>)
    requires
        settled_items(s),
    ensures
        written_items(s) == plain_items(s),
    decreases s,
{
    if s.len() > 0 {
        settled_items_are_written_plainly(s.drop_last());
        settled_values_are_written_plainly(s.last());
    }
}

proof fn settled_entries_are_written_plainly(s: Seq<(Captured, Captured)>)
    requires
        settled_entries(s),
    ensures
        written_entries(s) == plain_entries(s),
    decreases s,
{
    if s.len() > 0 {
        settled_entries_are_written_plainly(s.drop_last());
        settled_values_are_written_plainly(s.last().0);
        settled_values_are_written_plainly(s.last().1);
    }
}

proof fn settled_fields_are_written_plainly(s: Seq<(String, Captured)>)
    requires
        settled_fields(s),
    ensures
        written_fields(s) == plain_fields(s),
    decreases s,
{
    if s.len() > 0 {
        settled_fields_are_written_plainly(s.drop_last());
        settled_values_are_written_plainly(s.last().1);
    }
}

/// Every item of a sequence is written, in its place, and the sequence is written
/// only if all of them are.
pub proof fn every_item_is_written(s: Seq<Captured>)
    ensures
        written_items(s) matches Some(w) ==> w.len() == s.len() && forall|i: int|
            0 <= i < s.len() ==> written(#[trigger] s[i]) == Some(w[i]),
        (forall|i: int| 0 <= i < s.len() ==> written(#[trigger] s[i]) is Some) ==> written_items(
            s,
        ) is Some,
    decreases s.len(),
{
    if s.len() > 0 {
        let before = s.drop_last();
        every_item_is_written(before);
        if written_items(s) is Some {
            let w = written_items(s)->0;
            let v = written_items(before)->0;
            assert forall|i: int| 0 <= i < s.len() implies written(#[trigger] s[i]) == Some(w[i]) by {
                if i < before.len() {
                    assert(before[i] == s[i]);
                    assert(written(before[i]) == Some(v[i]));
                }
            }
        }
        if forall|i: int| 0 <= i < s.len() ==> written(#[trigger] s[i]) is Some {
            assert(written(s[s.len() - 1]) is Some);
            assert forall|i: int| 0 <= i < before.len() implies written(
                #[trigger] before[i],
            ) is Some by {
                assert(written(s[i]) is Some);
            }
        }
    }
}

/// Every entry of a map is written, in its place, its key by its text and its
/// value whole.
pub proof fn every_entry_is_written(s: Seq<(Captured, Captured)>)
    ensures
        written_entries(s) matches Some(w) ==> w.len() == s.len() && forall|i: int|
            0 <= i < s.len() ==> written((#[trigger] s[i]).0) is Some && key_text(
                written(s[i].0)->0,
            ) == Some(w[i].0) && written(s[i].1) == Some(w[i].1),
    decreases s.len(),
{
    if s.len() > 0 {
        let before = s.drop_last();
        every_entry_is_written(before);
        if written_entries(s) is Some {
            let w = written_entries(s)->0;
            let v = written_entries(before)->0;
            assert forall|i: int| 0 <= i < s.len() implies written(
                (#[trigger] s[i]).0,
            ) is Some && key_text(written(s[i].0)->0) == Some(w[i].0) && written(s[i].1) == Some(
                w[i].1,
            ) by {
                if i < before.len() {
                    assert(before[i] == s[i]);
                    assert(w[i] == v[i]);
                }
            }
        }
    }
}

/// Every field of a structure is written, in its place and under its name.
pub proof fn every_field_is_written(s: Seq<(String, Captured)>)
    ensures
        written_fields(s) matches Some(w) ==> w.len() == s.len() && forall|i: int|
            0 <= i < s.len() ==> w[i].0 == (#[trigger] s[i]).0@ && written(s[i].1) == Some(w[i].1),
        (forall|i: int| 0 <= i < s.len() ==> written((#[trigger] s[i]).1) is Some)
            ==> written_fields(s) is Some,
    decreases s.len(),
{
    if s.len() > 0 {
        let before = s.drop_last();
        every_field_is_written(before);
        if written_fields(s) is Some {
            let w = written_fields(s)->0;
            let v = written_fields(before)->0;
            assert forall|i: int| 0 <= i < s.len() implies w[i].0 == (#[trigger] s[i]).0@
                && written(s[i].1) == Some(w[i].1) by {
                if i < before.len() {
                    assert(before[i] == s[i]);
                    assert(w[i] == v[i]);
                }
            }
        }
        if forall|i: int| 0 <= i < s.len() ==> written((#[trigger] s[i]).1) is Some {
            assert(written(s[s.len() - 1].1) is Some);
            assert forall|i: int| 0 <= i < before.len() implies written(
                (#[trigger] before[i]).1,
            ) is Some by {
                assert(written(s[i].1) is Some);
            }
        }
    }
}

/// An object holds every key that was put in, once, with the value that was put in
/// for it last.
pub proof fn the_last_value_of_a_key_stands(s: Seq<(Seq<char>, JsonView)>)
    ensures
        object_of(s) is Object,
        distinct_keys(object_of(s)->Object_0),
        forall|key: Seq<char>, i: int|
            0 <= i < s.len() && (#[trigger] s[i]).0 == key && (forall|j: int|
                i < j < s.len() ==> (#[trigger] s[j]).0 != key) ==> #[trigger] object_of(
                s,
            ).member(key) == Some(s[i].1),
        forall|key: Seq<char>|
            (forall|j: int| 0 <= j < s.len() ==> (#[trigger] s[j]).0 != key)
                ==> #[trigger] object_of(s).member(key) is None,
    decreases s.len(),
{
    if s.len() > 0 {
        let before = s.drop_last();
        let (k, v) = s.last();
        the_last_value_of_a_key_stands(before);
        let o = object_of(before)->Object_0;
        let n = s.len() - 1;
        assert(s[n] == (k, v));
        members_are_put_in(o, k, v, k);
        assert forall|key: Seq<char>, i: int|
            0 <= i < s.len() && (#[trigger] s[i]).0 == key && (forall|j: int|
                i < j < s.len() ==> (
                #[trigger] s[j]).0 != key) implies #[trigger] object_of(s).member(key) == Some(
            s[i].1,
        ) by {
            members_are_put_in(o, k, v, key);
            if i < n {
                assert(s[n].0 != key);
                assert(before[i] == s[i]);
                assert forall|j: int| i < j < before.len() implies (#[trigger] before[j]).0
                    != key by {
                    assert(s[j].0 != key);
                }
                assert(object_of(before).member(key) == Some(before[i].1));
            }
        }
        assert forall|key: Seq<char>|
            (forall|j: int|
                0 <= j < s.len() ==> (
                #[trigger] s[j]).0 != key) implies #[trigger] object_of(s).member(key) is None by {
            members_are_put_in(o, k, v, key);
            assert(s[n].0 != key);
            assert forall|j: int| 0 <= j < before.len() implies (#[trigger] before[j]).0
                != key by {
                assert(s[j].0 != key);
            }
            assert(object_of(before).member(key) is None);
        }
    }
}

/// A captured value is written by what it is: scalars as they are, what is present
/// so that it is read back as present, a sequence as an array, in its own order or
/// rearranged where it has none, a map and a structure as an object, and a variant
/// as an object with its name alone.
pub proof fn values_are_written_by_kind(c: Captured)
    ensures
        c is Null ==> written(c) == Some(JsonView::Null),
        c matches Captured::Bool(b) ==> written(c) == Some(JsonView::Bool(b)),
        c matches Captured::Number(n) ==> written(c) == Some(JsonView::Number(n@)),
        c matches Captured::Text(t) ==> written(c) == Some(JsonView::String(t@)),
        c matches Captured::Present(inner) ==> match written(*inner) {
            Some(v) => written(c) is Some && option_read(written(c)->0) == Some(v),
            None => written(c) is None,
        },
        c matches Captured::Sequence { items, unordered } ==> match written_items(items@) {
            Some(s) => written(c) matches Some(JsonView::Array(w)) && w.to_multiset()
                == s.to_multiset() && (!unordered ==> w == s),
            None => written(c) is None,
        },
        c matches Captured::Keyed { entries, unordered } ==> match written_entries(entries@) {
            Some(s) => written(c) is Some && (!unordered ==> written(c)->0 == object_of(s)) && exists|
                r: Seq<(Seq<char>, JsonView)>,
            |
                written(c)->0 == #[trigger] object_of(r) && r.to_multiset() == s.to_multiset(),
            None => written(c) is None,
        },
        c matches Captured::Record { fields } ==> match written_fields(fields@) {
            Some(s) => written(c) == Some(object_of(s)),
            None => written(c) is None,
        },
        c matches Captured::Variant { name, inner } ==> match written(*inner) {
            Some(v) => written(c) == Some(JsonView::Object(seq![(name@, v)])),
            None => written(c) is None,
        },
{
    match c {
        Captured::Present(inner) => {
            if written(*inner) is Some {
                options_are_read_back(written(*inner)->0);
            }
        },
        Captured::Sequence { items, unordered } => {
            every_item_is_written(items@);
            if written_items(items@) is Some && unordered {
                assert(items@.len() == items.len());
                sorting_keeps_every_member(written_items(items@)->0);
            }
        },
        Captured::Keyed { entries, unordered } => {
            if written_entries(entries@) is Some {
                let s = written_entries(entries@)->0;
                every_entry_is_written(entries@);
                assert(entries@.len() == entries.len());
                order_only_rearranges(s, member_keys(s));
                let r = if unordered {
                    by_key(s)
                } else {
                    s
                };
                assert(written(c)->0 == object_of(r) && r.to_multiset() == s.to_multiset());
            }
        },
        _ => {},
    }
}

/// A collection without an order is written in the order of its members' texts,
/// and a map without one in the order of its keys.
pub proof fn collections_without_an_order_are_sorted(
    s: Seq<JsonView>,
    m: Seq<(Seq<char>, JsonView)>,
    i: int,
    j: int,
)
    requires
        s.len() <= usize::MAX,
        m.len() <= usize::MAX,
    ensures
        0 <= i < j < s.len() ==> text_le(
            rendered_json(by_rendering(s)[i]),
            rendered_json(by_rendering(s)[j]),
        ),
        0 <= i < j < m.len() ==> text_le(by_key(m)[i].0, by_key(m)[j].0),
        by_key(m).to_multiset() == m.to_multiset(),
        by_rendering(s).len() == s.len(),
        by_key(m).len() == m.len(),
{
    order_is_stable(renderings(s));
    order_is_stable(member_keys(m));
    order_only_rearranges(m, member_keys(m));
    if 0 <= i < j < s.len() {
        let a = order_of(renderings(s))[i];
        let b = order_of(renderings(s))[j];
        assert(text_le(renderings(s)[a as int], renderings(s)[b as int]));
    }
    if 0 <= i < j < m.len() {
        let a = order_of(member_keys(m))[i];
        let b = order_of(member_keys(m))[j];
        assert(text_le(member_keys(m)[a as int], member_keys(m)[b as int]));
    }
}

/// A key is written by the text of a string, of a number or of a truth value, and
/// nothing else is a key.
pub proof fn keys_are_scalars(v: JsonView)
    ensures
        key_text(v) is Some <==> v is String || v is Number || v is Bool,
        v matches JsonView::String(s) ==> key_text(v) == Some(s),
        v matches JsonView::Number(n) ==> key_text(v) == Some(n),
        key_text(JsonView::Bool(true)) == Some("true"@),
        key_text(JsonView::Bool(false)) == Some("false"@),
{
}

} // verus!
