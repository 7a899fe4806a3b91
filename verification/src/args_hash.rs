//! The exact hash of a call's arguments: the same in every build, whatever the
//! order of an object's members.

use vstd::prelude::*;
use vstd::seq_lib::to_multiset_contains;
use vstd::utf8::{decode_utf8, pop_first_scalar, valid_utf8};
use crate::fnv::{fnv, fnv1a_byte, fnv1a_str, fnv1a_u64, fnv_text, le_bytes, FNV_OFFSET_BASIS};
use crate::identity::{
    applies, body_identity, body_text, bytes_in, form_fields, identities,
    identities_are_the_members, identity_of, is_form, is_form_request_body, is_json_body,
    is_json_request_body, keys_of_both, member_identities, multiplicity_counts, object_identity,
    request_body_text,
};
use crate::json::{
    distinct_keys, find, found_stands_under_its_key, group_json_view, item_is_smaller,
    item_is_well_formed, items_size, items_view, key_is_found, member_is_smaller,
    member_is_well_formed, members_size, members_view, Json, JsonView,
};
use crate::order::{
    arranged, order_by_text, order_is_stable, order_of, sorted_texts_depend_on_the_multiset,
    text_le, text_le_is_antisymmetric,
};
use crate::text::{split, split_is_not_empty, split_on, texts};

verus! {

/// The bytes that open or close a value, so that no two shapes run together.
pub const NULL_BYTE: u8 = 0x6e;

pub const TRUE_BYTE: u8 = 0x74;

pub const FALSE_BYTE: u8 = 0x66;

pub const NUMBER_BYTE: u8 = 0x23;

pub const STRING_BYTE: u8 = 0x73;

pub const ARRAY_OPEN: u8 = 0x5b;

pub const ARRAY_CLOSE: u8 = 0x5d;

pub const OBJECT_OPEN: u8 = 0x7b;

pub const OBJECT_CLOSE: u8 = 0x7d;

pub const FORM_BYTE: u8 = 0x26;

pub const BODY_BYTE: u8 = 0x6a;

/// The keys of an object's members.
pub open spec fn member_keys(s: Seq<(Seq<char>, JsonView)>) -> Seq<Seq<char>> {
    s.map_values(|m: (Seq<char>, JsonView)| m.0)
}

/// Mixes a value into a hash: objects by their keys in order, a captured body
/// by its content alone.
pub open spec fn exact_hash(hash: u64, v: JsonView) -> u64
    decreases v.size(), 1nat, 0nat,
{
    match v {
        JsonView::Null => fnv(hash, seq![NULL_BYTE]),
        JsonView::Bool(b) => fnv(hash, seq![if b { TRUE_BYTE } else { FALSE_BYTE }]),
        JsonView::Number(n) => fnv_text(fnv(hash, seq![NUMBER_BYTE]), n),
        JsonView::String(s) => fnv_text(fnv(hash, seq![STRING_BYTE]), s),
        JsonView::Array(s) => fnv(
            items_hash(fnv(hash, seq![ARRAY_OPEN]), s, s.len()),
            seq![ARRAY_CLOSE],
        ),
        JsonView::Object(s) => if is_form(v) {
            fnv(
                fields_hash(
                    fnv(hash, seq![FORM_BYTE]),
                    form_fields(v),
                    order_of(form_fields(v)),
                    order_of(form_fields(v)).len(),
                ),
                seq![FORM_BYTE],
            )
        } else if is_json_body(v) {
            let d = v.member("json"@)->0;
            if d.size() < v.size() {
                exact_hash(fnv(hash, seq![BODY_BYTE]), d)
            } else {
                hash
            }
        } else {
            let order = order_of(member_keys(s));
            fnv(
                ordered_members_hash(fnv(hash, seq![OBJECT_OPEN]), s, order, order.len()),
                seq![OBJECT_CLOSE],
            )
        },
    }
}

/// Mixes the first `n` members of an array into a hash.
pub open spec fn items_hash(hash: u64, s: Seq<JsonView>, n: nat) -> u64
    decreases JsonView::Array(s).size(), 0nat, n,
{
    if n == 0 {
        hash
    } else {
        let before = items_hash(hash, s, (n - 1) as nat);
        if s[n - 1].size() < JsonView::Array(s).size() {
            exact_hash(before, s[n - 1])
        } else {
            before
        }
    }
}

/// Mixes the first `n` members of an object, taken in an order, into a hash.
pub open spec fn ordered_members_hash(
    hash: u64,
    s: Seq<(Seq<char>, JsonView)>,
    order: Seq<usize>,
    n: nat,
) -> u64
    decreases JsonView::Object(s).size(), 0nat, n,
{
    if n == 0 {
        hash
    } else {
        let before = ordered_members_hash(hash, s, order, (n - 1) as nat);
        let m = s[order[n - 1] as int];
        if m.1.size() < JsonView::Object(s).size() {
            exact_hash(fnv_text(before, m.0), m.1)
        } else {
            before
        }
    }
}

/// Mixes the first `n` fields of a form, taken in an order, into a hash.
pub open spec fn fields_hash(
    hash: u64,
    fields: Seq<Seq<char>>,
    order: Seq<usize>,
    n: nat,
) -> u64
    decreases n,
{
    if n == 0 {
        hash
    } else {
        fnv_text(
            fields_hash(hash, fields, order, (n - 1) as nat),
            fields[order[n - 1] as int],
        )
    }
}

/// Mixes the content of a captured form body into a hash: its fields in order.
#[verifier::loop_isolation(false)]
fn hash_form_body(hash: u64, value: &Json) -> (r: u64)
    requires
        is_form(value@),
    ensures
        r == fnv(
            fields_hash(
                fnv(hash, seq![FORM_BYTE]),
                form_fields(value@),
                order_of(form_fields(value@)),
                order_of(form_fields(value@)).len(),
            ),
            seq![FORM_BYTE],
        ),
{
    let fields = match request_body_text(value) {
        Some(text) => split(text.as_str(), '&'),
        None => Vec::new(),
    };
    let order = order_by_text(&fields);
    let start: u64 = fnv1a_byte(hash, FORM_BYTE);
    let mut h: u64 = start;
    let mut i: usize = 0;
    while i < order.len()
        invariant
            0 <= i <= order@.len(),
            h == fields_hash(start, texts(fields@), order@, i as nat),
        decreases order@.len() - i,
    {
        let at: usize = order[i];
        h = fnv1a_str(h, fields[at].as_str());
        i = i + 1;
    }
    fnv1a_byte(h, FORM_BYTE)
}

/// Mixes a value into a hash.
#[verifier::loop_isolation(false)]
pub fn hash_value(hash: u64, value: &Json) -> (r: u64)
    ensures
        r == exact_hash(hash, value@),
    decreases value@.size(),
{
    broadcast use group_json_view;

    match value {
        Json::Null => fnv1a_byte(hash, NULL_BYTE),
        Json::Bool(b) => if *b {
            fnv1a_byte(hash, TRUE_BYTE)
        } else {
            fnv1a_byte(hash, FALSE_BYTE)
        },
        Json::Number(n) => fnv1a_str(fnv1a_byte(hash, NUMBER_BYTE), n.as_str()),
        Json::String(s) => fnv1a_str(fnv1a_byte(hash, STRING_BYTE), s.as_str()),
        Json::Array(items) => {
            let ghost all = items_view(items@);
            let start: u64 = fnv1a_byte(hash, ARRAY_OPEN);
            let mut h: u64 = start;
            let mut i: usize = 0;
            while i < items.len()
                invariant
                    0 <= i <= items@.len(),
                    h == items_hash(start, all, i as nat),
                decreases items@.len() - i,
            {
                proof {
                    item_is_smaller(all, i as int);
                }
                h = hash_value(h, &items[i]);
                i = i + 1;
            }
            fnv1a_byte(h, ARRAY_CLOSE)
        },
        Json::Object(members) => {
            if is_form_request_body(value) {
                return hash_form_body(hash, value);
            }
            if is_json_request_body(value) {
                proof {
                    body_identity(value@);
                }
                return match value.get("json") {
                    Some(json) => hash_value(fnv1a_byte(hash, BODY_BYTE), json),
                    None => hash,
                };
            }
            let ghost all = members_view(members@);
            let mut keys: Vec<String> = Vec::new();
            let mut k: usize = 0;
            while k < members.len()
                invariant
                    0 <= k <= members@.len(),
                    texts(keys@) == member_keys(all).take(k as int),
                decreases members@.len() - k,
            {
                let ghost was = keys@;
                keys.push(members[k].0.clone());
                proof {
                    assert(texts(keys@) =~= texts(was).push(all[k as int].0));
                    assert(texts(keys@) =~= member_keys(all).take(k as int + 1));
                }
                k = k + 1;
            }
            proof {
                assert(texts(keys@) =~= member_keys(all));
                assert(keys@.len() == texts(keys@).len());
            }
            let order = order_by_text(&keys);
            let start: u64 = fnv1a_byte(hash, OBJECT_OPEN);
            let mut h: u64 = start;
            let mut i: usize = 0;
            while i < order.len()
                invariant
                    0 <= i <= order@.len(),
                    h == ordered_members_hash(start, all, order@, i as nat),
                decreases order@.len() - i,
            {
                let at: usize = order[i];
                proof {
                    member_is_smaller(all, at as int);
                }
                h = hash_value(fnv1a_str(h, members[at].0.as_str()), &members[at].1);
                i = i + 1;
            }
            fnv1a_byte(h, OBJECT_CLOSE)
        },
    }
}

/// The exact hash of a call's arguments.
pub fn canonical_args_hash(args: &Json) -> (r: u64)
    ensures
        r == exact_hash(FNV_OFFSET_BASIS, args@),
{
    hash_value(FNV_OFFSET_BASIS, args)
}

/// The digest of what went in and what came out.
pub open spec fn digest_of(args: JsonView, result: JsonView) -> u64 {
    fnv(
        exact_hash(FNV_OFFSET_BASIS, args),
        le_bytes(exact_hash(FNV_OFFSET_BASIS, result)),
    )
}

/// The digest of what went in and what came out.
pub fn value_digest_of(args: &Json, result: &Json) -> (r: u64)
    ensures
        r == digest_of(args@, result@),
{
    let a: u64 = canonical_args_hash(args);
    let b: u64 = canonical_args_hash(result);
    fnv1a_u64(a, b)
}

/// Whether two values are equal, with every number written alike: arrays
/// member by member, objects by key, whatever the order of their members.
pub open spec fn written_alike(a: JsonView, b: JsonView) -> bool
    decreases a,
{
    match (a, b) {
        (JsonView::Array(x), JsonView::Array(y)) => {
            &&& x.len() == y.len()
            &&& forall|i: int| 0 <= i < x.len() ==> written_alike(#[trigger] x[i], y[i])
        },
        (JsonView::Object(x), JsonView::Object(y)) => {
            &&& x.len() == y.len()
            &&& forall|i: int|
                0 <= i < x.len() ==> match find(y, (#[trigger] x[i]).0) {
                    Some(other) => written_alike(x[i].1, other),
                    None => false,
                }
        },
        (JsonView::Array(_), _) => false,
        (JsonView::Object(_), _) => false,
        _ => a == b,
    }
}

/// Each member of an object that is written like another is written like its
/// counterpart.
proof fn members_are_alike(
    x: Seq<(Seq<char>, JsonView)>,
    y: Seq<(Seq<char>, JsonView)>,
    key: Seq<char>,
)
    requires
        distinct_keys(x),
        distinct_keys(y),
        written_alike(JsonView::Object(x), JsonView::Object(y)),
    ensures
        find(x, key) is Some <==> find(y, key) is Some,
        find(x, key) is Some ==> written_alike(find(x, key)->0, find(y, key)->0),
{
    let a = JsonView::Object(x);
    assert forall|i: int| 0 <= i < x.len() implies find(y, (#[trigger] x[i]).0) is Some by {
        assert(find(y, a->Object_0[i].0) is Some);
    }
    keys_of_both(x, y);
    if find(x, key) is Some {
        let i = found_stands_under_its_key(x, key);
        assert(written_alike(a->Object_0[i].1, find(y, a->Object_0[i].0)->0));
    }
}

proof fn bytes_are_alike(x: Seq<JsonView>, y: Seq<JsonView>)
    requires
        x.len() == y.len(),
        forall|i: int| 0 <= i < x.len() ==> written_alike(#[trigger] x[i], y[i]),
    ensures
        bytes_in(x) == bytes_in(y),
    decreases x.len(),
{
    if x.len() > 0 {
        assert(written_alike(x[x.len() - 1], y[x.len() - 1]));
        assert forall|i: int| 0 <= i < x.drop_last().len() implies written_alike(
            #[trigger] x.drop_last()[i],
            y.drop_last()[i],
        ) by {
            assert(written_alike(x[i], y[i]));
        }
        bytes_are_alike(x.drop_last(), y.drop_last());
    }
}

/// Values written alike are captured bodies of one kind and one text.
proof fn bodies_are_alike(x: Seq<(Seq<char>, JsonView)>, y: Seq<(Seq<char>, JsonView)>)
    requires
        distinct_keys(x),
        distinct_keys(y),
        written_alike(JsonView::Object(x), JsonView::Object(y)),
    ensures
        body_text(JsonView::Object(x)) == body_text(JsonView::Object(y)),
        is_form(JsonView::Object(x)) == is_form(JsonView::Object(y)),
        is_json_body(JsonView::Object(x)) == is_json_body(JsonView::Object(y)),
{
    members_are_alike(x, y, "text"@);
    members_are_alike(x, y, "raw_bytes"@);
    members_are_alike(x, y, "kind"@);
    members_are_alike(x, y, "json"@);
    if find(x, "raw_bytes"@) is Some {
        match (find(x, "raw_bytes"@)->0, find(y, "raw_bytes"@)->0) {
            (JsonView::Array(p), JsonView::Array(q)) => {
                let v = find(x, "raw_bytes"@)->0;
                assert forall|i: int| 0 <= i < p.len() implies written_alike(
                    #[trigger] p[i],
                    q[i],
                ) by {
                    assert(written_alike(v->Array_0[i], q[i]));
                }
                bytes_are_alike(p, q);
            },
            _ => {},
        }
    }
}

/// Whether texts stand in order, none twice.
pub open spec fn strictly_sorted(s: Seq<Seq<char>>) -> bool {
    forall|i: int, j: int|
        0 <= i < j < s.len() ==> text_le(#[trigger] s[i], #[trigger] s[j]) && s[i] != s[j]
}

/// Two lists of the same texts in order are one list.
proof fn sorted_texts_are_one_list(p: Seq<Seq<char>>, q: Seq<Seq<char>>)
    requires
        strictly_sorted(p),
        strictly_sorted(q),
        p.len() == q.len(),
        forall|i: int| 0 <= i < p.len() ==> q.contains(#[trigger] p[i]),
        forall|i: int| 0 <= i < q.len() ==> p.contains(#[trigger] q[i]),
    ensures
        p == q,
    decreases p.len(),
{
    if p.len() > 0 {
        let n = p.len() - 1;
        assert(q.contains(p[n]));
        assert(p.contains(q[n]));
        let j = choose|j: int| 0 <= j < q.len() && q[j] == p[n];
        let i = choose|i: int| 0 <= i < p.len() && p[i] == q[n];
        if p[n] != q[n] {
            assert(text_le(q[j], q[n]));
            assert(text_le(p[i], p[n]));
            text_le_is_antisymmetric(p[n], q[n]);
        }
        let p1 = p.drop_last();
        let q1 = q.drop_last();
        assert forall|k: int| 0 <= k < p1.len() implies q1.contains(#[trigger] p1[k]) by {
            assert(q.contains(p[k]));
            let m = choose|m: int| 0 <= m < q.len() && q[m] == p[k];
            assert(p[k] != p[n]);
            assert(q1[m] == p1[k]);
        }
        assert forall|k: int| 0 <= k < q1.len() implies p1.contains(#[trigger] q1[k]) by {
            assert(p.contains(q[k]));
            let m = choose|m: int| 0 <= m < p.len() && p[m] == q[k];
            assert(q[k] != q[n]);
            assert(p1[m] == q1[k]);
        }
        sorted_texts_are_one_list(p1, q1);
        assert(p =~= p1.push(p[n]));
        assert(q =~= q1.push(q[n]));
    } else {
        assert(p =~= q);
    }
}

/// The keys of an object in the order in which its members are hashed.
pub open spec fn sorted_keys(s: Seq<(Seq<char>, JsonView)>) -> Seq<Seq<char>> {
    order_of(member_keys(s)).map_values(|p: usize| s[p as int].0)
}

pub proof fn sorted_keys_are_the_keys(s: Seq<(Seq<char>, JsonView)>)
    requires
        distinct_keys(s),
        s.len() <= usize::MAX,
    ensures
        sorted_keys(s).len() == s.len(),
        strictly_sorted(sorted_keys(s)),
        forall|key: Seq<char>| sorted_keys(s).contains(key) <==> find(s, key) is Some,
        forall|i: int| 0 <= i < s.len() ==> (#[trigger] order_of(member_keys(s))[i]) < s.len(),
{
    let keys = member_keys(s);
    let order = order_of(keys);
    let sorted = sorted_keys(s);
    order_is_stable(keys);
    assert forall|i: int, j: int| 0 <= i < j < sorted.len() implies text_le(
        #[trigger] sorted[i],
        #[trigger] sorted[j],
    ) && sorted[i] != sorted[j] by {
        let a = order[i];
        let b = order[j];
        assert(a < s.len() && b < s.len());
        assert(order[i] != order[j]);
        assert(keys[a as int] == s[a as int].0);
        assert(keys[b as int] == s[b as int].0);
        if a < b {
            assert(s[a as int].0 != s[b as int].0);
        } else {
            assert(s[b as int].0 != s[a as int].0);
        }
    }
    let places = Seq::new(s.len(), |i: int| i as usize);
    order.unique_seq_to_set();
    places.unique_seq_to_set();
    assert(order.to_set().subset_of(places.to_set())) by {
        assert forall|p: usize| order.to_set().contains(p) implies places.to_set().contains(
            p,
        ) by {
            let i = choose|i: int| 0 <= i < order.len() && order[i] == p;
            assert(order[i] < s.len());
            assert(places[p as int] == p);
        }
    }
    vstd::set_lib::lemma_subset_equality(order.to_set(), places.to_set());
    assert forall|key: Seq<char>| sorted.contains(key) <==> find(s, key) is Some by {
        if sorted.contains(key) {
            let i = choose|i: int| 0 <= i < sorted.len() && sorted[i] == key;
            assert(order[i] < s.len());
            key_is_found(s, order[i] as int);
        }
        if find(s, key) is Some {
            let j = found_stands_under_its_key(s, key);
            assert(places[j] == j as usize);
            assert(places.to_set().contains(j as usize));
            assert(order.to_set().contains(j as usize));
            let i = choose|i: int| 0 <= i < order.len() && order[i] == j as usize;
            assert(sorted[i] == key);
        }
    }
}

pub proof fn members_fit_in_the_size(s: Seq<(Seq<char>, JsonView)>)
    ensures
        s.len() <= members_size(s),
    decreases s.len(),
{
    if s.len() > 0 {
        members_fit_in_the_size(s.drop_last());
        assert(s.last().1.size() >= 1);
    }
}

proof fn items_hash_alike(hash: u64, x: Seq<JsonView>, y: Seq<JsonView>, n: nat)
    requires
        JsonView::Array(x).wf(),
        JsonView::Array(y).wf(),
        JsonView::Array(x).size() <= usize::MAX,
        JsonView::Array(y).size() <= usize::MAX,
        n <= x.len(),
        x.len() == y.len(),
        forall|i: int| 0 <= i < x.len() ==> written_alike(#[trigger] x[i], y[i]),
    ensures
        items_hash(hash, x, n) == items_hash(hash, y, n),
    decreases JsonView::Array(x).size(), 0nat, n,
{
    if n > 0 {
        items_hash_alike(hash, x, y, (n - 1) as nat);
        item_is_smaller(x, n - 1);
        item_is_smaller(y, n - 1);
        item_is_well_formed(x, n - 1);
        item_is_well_formed(y, n - 1);
        assert(written_alike(x[n - 1], y[n - 1]));
        member_order_is_not_hashed(items_hash(hash, x, (n - 1) as nat), x[n - 1], y[n - 1]);
    }
}

proof fn members_hash_alike(
    hash: u64,
    x: Seq<(Seq<char>, JsonView)>,
    y: Seq<(Seq<char>, JsonView)>,
    n: nat,
)
    requires
        JsonView::Object(x).wf(),
        JsonView::Object(y).wf(),
        JsonView::Object(x).size() <= usize::MAX,
        JsonView::Object(y).size() <= usize::MAX,
        written_alike(JsonView::Object(x), JsonView::Object(y)),
        n <= x.len(),
        x.len() == y.len(),
        sorted_keys(x) == sorted_keys(y),
    ensures
        ordered_members_hash(hash, x, order_of(member_keys(x)), n) == ordered_members_hash(
            hash,
            y,
            order_of(member_keys(y)),
            n,
        ),
    decreases JsonView::Object(x).size(), 0nat, n,
{
    if n > 0 {
        members_hash_alike(hash, x, y, (n - 1) as nat);
        members_fit_in_the_size(x);
        members_fit_in_the_size(y);
        sorted_keys_are_the_keys(x);
        sorted_keys_are_the_keys(y);
        let ox = order_of(member_keys(x));
        let oy = order_of(member_keys(y));
        let i = ox[n - 1] as int;
        let j = oy[n - 1] as int;
        assert(sorted_keys(x)[n - 1] == x[i].0);
        assert(sorted_keys(y)[n - 1] == y[j].0);
        key_is_found(x, i);
        key_is_found(y, j);
        members_are_alike(x, y, x[i].0);
        member_is_smaller(x, i);
        member_is_smaller(y, j);
        member_is_well_formed(x, i);
        member_is_well_formed(y, j);
        let before = ordered_members_hash(hash, x, ox, (n - 1) as nat);
        member_order_is_not_hashed(fnv_text(before, x[i].0), x[i].1, y[j].1);
    }
}

/// The order of an object's members is not hashed: two values that are equal,
/// with every number written alike, have one exact hash.
pub proof fn member_order_is_not_hashed(hash: u64, a: JsonView, b: JsonView)
    requires
        a.wf(),
        b.wf(),
        a.size() <= usize::MAX,
        b.size() <= usize::MAX,
        written_alike(a, b),
    ensures
        exact_hash(hash, a) == exact_hash(hash, b),
    decreases a.size(), 1nat, 0nat,
{
    match (a, b) {
        (JsonView::Array(x), JsonView::Array(y)) => {
            assert forall|i: int| 0 <= i < x.len() implies written_alike(#[trigger] x[i], y[i]) by {
                assert(written_alike(a->Array_0[i], y[i]));
            }
            items_hash_alike(fnv(hash, seq![ARRAY_OPEN]), x, y, x.len());
        },
        (JsonView::Object(x), JsonView::Object(y)) => {
            bodies_are_alike(x, y);
            if !is_form(a) {
                if is_json_body(a) {
                    body_identity(a);
                    body_identity(b);
                    members_are_alike(x, y, "json"@);
                    member_order_is_not_hashed(
                        fnv(hash, seq![BODY_BYTE]),
                        a.member("json"@)->0,
                        b.member("json"@)->0,
                    );
                } else {
                    members_fit_in_the_size(x);
                    members_fit_in_the_size(y);
                    sorted_keys_are_the_keys(x);
                    sorted_keys_are_the_keys(y);
                    let p = sorted_keys(x);
                    let q = sorted_keys(y);
                    assert forall|i: int| 0 <= i < p.len() implies q.contains(#[trigger] p[i]) by {
                        assert(p.contains(p[i]));
                        members_are_alike(x, y, p[i]);
                    }
                    assert forall|i: int| 0 <= i < q.len() implies p.contains(#[trigger] q[i]) by {
                        assert(q.contains(q[i]));
                        members_are_alike(x, y, q[i]);
                    }
                    sorted_texts_are_one_list(p, q);
                    members_hash_alike(fnv(hash, seq![OBJECT_OPEN]), x, y, x.len());
                }
            }
        },
        _ => {},
    }
}

proof fn fields_hash_reads_the_list(
    hash: u64,
    a: Seq<Seq<char>>,
    b: Seq<Seq<char>>,
    n: nat,
)
    requires
        arranged(a, order_of(a)) == arranged(b, order_of(b)),
        n <= order_of(a).len(),
    ensures
        fields_hash(hash, a, order_of(a), n) == fields_hash(hash, b, order_of(b), n),
    decreases n,
{
    if n > 0 {
        fields_hash_reads_the_list(hash, a, b, (n - 1) as nat);
        assert(arranged(a, order_of(a)).len() == order_of(a).len());
        assert(arranged(b, order_of(b)).len() == order_of(b).len());
        assert(arranged(a, order_of(a))[n - 1] == a[order_of(a)[n - 1] as int]);
        assert(arranged(b, order_of(b))[n - 1] == b[order_of(b)[n - 1] as int]);
    }
}

/// The order of a form body's fields is not hashed: two form bodies that hold
/// the same fields, each as often, have one exact hash and are one identity.
pub proof fn form_field_order_is_not_hashed(hash: u64, a: JsonView, b: JsonView)
    requires
        a is Object,
        b is Object,
        is_form(a),
        is_form(b),
        form_fields(a).to_multiset() == form_fields(b).to_multiset(),
        form_fields(a).len() <= usize::MAX,
        form_fields(b).len() <= usize::MAX,
    ensures
        exact_hash(hash, a) == exact_hash(hash, b),
        identity_of(a) == identity_of(b),
{
    let x = form_fields(a);
    let y = form_fields(b);
    sorted_texts_depend_on_the_multiset(x, y);
    assert(arranged(x, order_of(x)).len() == order_of(x).len());
    assert(arranged(y, order_of(y)).len() == order_of(y).len());
    fields_hash_reads_the_list(fnv(hash, seq![FORM_BYTE]), x, y, order_of(x).len());
}

/// A JSON body is hashed and identified by its document alone: two whose
/// documents are equal have one exact hash, whatever else they carry.
pub proof fn json_body_is_its_document(hash: u64, a: JsonView, b: JsonView)
    requires
        a is Object,
        b is Object,
        !is_form(a),
        !is_form(b),
        is_json_body(a),
        is_json_body(b),
        a.member("json"@) == b.member("json"@),
    ensures
        exact_hash(hash, a) == exact_hash(hash, b),
        identity_of(a) == identity_of(b),
{
    body_identity(a);
    body_identity(b);
}

/// Values that are equal, with every number written alike, are one identity.
pub proof fn alike_is_one_identity(a: JsonView, b: JsonView)
    requires
        a.wf(),
        b.wf(),
        written_alike(a, b),
    ensures
        identity_of(a) == identity_of(b),
    decreases a.size(),
{
    match (a, b) {
        (JsonView::Array(x), JsonView::Array(y)) => {
            identities_are_the_members(x);
            identities_are_the_members(y);
            assert forall|i: int| 0 <= i < x.len() implies identity_of(#[trigger] x[i])
                == identity_of(y[i]) by {
                assert(written_alike(a->Array_0[i], y[i]));
                item_is_smaller(x, i);
                item_is_well_formed(x, i);
                item_is_well_formed(y, i);
                alike_is_one_identity(x[i], y[i]);
            }
            assert(identities(x) =~= identities(y));
        },
        (JsonView::Object(x), JsonView::Object(y)) => {
            bodies_are_alike(x, y);
            if !is_form(a) {
                if is_json_body(a) {
                    body_identity(a);
                    body_identity(b);
                    members_are_alike(x, y, "json"@);
                    alike_is_one_identity(a.member("json"@)->0, b.member("json"@)->0);
                } else {
                    object_identity(x);
                    object_identity(y);
                    let p = member_identities(x);
                    let q = member_identities(y);
                    assert forall|key: Seq<char>| #[trigger] p.dom().contains(key)
                        == q.dom().contains(key) by {
                        members_are_alike(x, y, key);
                    }
                    assert forall|key: Seq<char>| #[trigger] p.dom().contains(key) implies p[key]
                        == q[key] by {
                        members_are_alike(x, y, key);
                        let i = found_stands_under_its_key(x, key);
                        let j = found_stands_under_its_key(y, key);
                        member_is_well_formed(x, i);
                        member_is_well_formed(y, j);
                        alike_is_one_identity(x[i].1, y[j].1);
                    }
                    assert(p =~= q);
                }
            }
        },
        _ => {},
    }
}

proof fn decoding_gives_no_more_characters(bytes: Seq<u8>)
    requires
        valid_utf8(bytes),
    ensures
        decode_utf8(bytes).len() <= bytes.len(),
    decreases bytes.len(),
{
    if bytes.len() > 0 {
        decoding_gives_no_more_characters(pop_first_scalar(bytes));
    }
}

proof fn bytes_are_as_many(items: Seq<JsonView>)
    ensures
        bytes_in(items) matches Some(bytes) ==> bytes.len() == items.len(),
    decreases items.len(),
{
    if items.len() > 0 {
        bytes_are_as_many(items.drop_last());
    }
}

proof fn items_fit_in_the_size(s: Seq<JsonView>)
    ensures
        s.len() <= items_size(s),
    decreases s.len(),
{
    if s.len() > 0 {
        items_fit_in_the_size(s.drop_last());
        assert(s.last().size() >= 1);
    }
}

proof fn pieces_fit_in_the_text(s: Seq<char>, sep: char)
    ensures
        split_on(s, sep).len() <= s.len() + 1,
    decreases s.len(),
{
    if s.len() > 0 {
        pieces_fit_in_the_text(s.drop_last(), sep);
        split_is_not_empty(s.drop_last(), sep);
    }
}

pub proof fn fields_fit_in_the_size(v: JsonView)
    requires
        v is Object,
        is_form(v),
    ensures
        form_fields(v).len() <= v.size(),
{
    let s = v->Object_0;
    pieces_fit_in_the_text(body_text(v)->0, '&');
    match v.member("text"@) {
        Some(JsonView::String(t)) => {
            let i = found_stands_under_its_key(s, "text"@);
            member_is_smaller(s, i);
        },
        _ => {
            let i = found_stands_under_its_key(s, "raw_bytes"@);
            member_is_smaller(s, i);
            let items = s[i].1->Array_0;
            items_fit_in_the_size(items);
            bytes_are_as_many(items);
            decoding_gives_no_more_characters(bytes_in(items)->0);
        },
    }
}

proof fn plain_members_are_hashed_exactly(
    hash: u64,
    x: Seq<(Seq<char>, JsonView)>,
    y: Seq<(Seq<char>, JsonView)>,
    n: nat,
)
    requires
        JsonView::Object(x).wf(),
        JsonView::Object(y).wf(),
        JsonView::Object(x).size() <= usize::MAX,
        JsonView::Object(y).size() <= usize::MAX,
        forall|i: int| 0 <= i < x.len() ==> !applies((#[trigger] x[i]).1),
        member_identities(x) == member_identities(y),
        n <= x.len(),
        x.len() == y.len(),
        sorted_keys(x) == sorted_keys(y),
    ensures
        ordered_members_hash(hash, x, order_of(member_keys(x)), n) == ordered_members_hash(
            hash,
            y,
            order_of(member_keys(y)),
            n,
        ),
    decreases JsonView::Object(x).size(), 0nat, n,
{
    if n > 0 {
        plain_members_are_hashed_exactly(hash, x, y, (n - 1) as nat);
        members_fit_in_the_size(x);
        members_fit_in_the_size(y);
        sorted_keys_are_the_keys(x);
        sorted_keys_are_the_keys(y);
        let ox = order_of(member_keys(x));
        let oy = order_of(member_keys(y));
        let i = ox[n - 1] as int;
        let j = oy[n - 1] as int;
        assert(sorted_keys(x)[n - 1] == x[i].0);
        assert(sorted_keys(y)[n - 1] == y[j].0);
        key_is_found(x, i);
        key_is_found(y, j);
        assert(distinct_keys(x) && distinct_keys(y));
        let key = x[i].0;
        assert(member_identities(x).dom().contains(key));
        assert(member_identities(y).dom().contains(key));
        assert(member_identities(x)[key] == identity_of(x[i].1));
        assert(member_identities(y)[key] == identity_of(y[j].1));
        member_is_smaller(x, i);
        member_is_smaller(y, j);
        member_is_well_formed(x, i);
        member_is_well_formed(y, j);
        let before = ordered_members_hash(hash, x, ox, (n - 1) as nat);
        plain_calls_are_hashed_exactly(fnv_text(before, x[i].0), x[i].1, y[j].1);
    }
}

/// Where a call could not be written another way and keep its identity, its
/// exact hash says as much as its identity: every call of one identity with it
/// has its exact hash.
pub proof fn plain_calls_are_hashed_exactly(hash: u64, a: JsonView, b: JsonView)
    requires
        a.wf(),
        b.wf(),
        a.size() <= usize::MAX,
        b.size() <= usize::MAX,
        !applies(a),
        identity_of(a) == identity_of(b),
    ensures
        exact_hash(hash, a) == exact_hash(hash, b),
    decreases a.size(), 1nat, 0nat,
{
    if b is Object && !is_form(b) && is_json_body(b) {
        body_identity(b);
    }
    match a {
        JsonView::Array(x) => {
            let y = b->Array_0;
            multiplicity_counts(x, y);
            identities_are_the_members(x);
            identities_are_the_members(y);
            if x.len() == 1 {
                assert(identities(x)[0] == identity_of(x[0]));
                to_multiset_contains(identities(x), identity_of(x[0]));
                to_multiset_contains(identities(y), identity_of(x[0]));
                let j = choose|j: int| 0 <= j < y.len() && identities(y)[j] == identity_of(x[0]);
                assert(identities(y)[j] == identity_of(y[0]));
                item_is_smaller(x, 0);
                item_is_smaller(y, 0);
                item_is_well_formed(x, 0);
                item_is_well_formed(y, 0);
                assert(!applies(a->Array_0[0]));
                let open = fnv(hash, seq![ARRAY_OPEN]);
                plain_calls_are_hashed_exactly(open, x[0], y[0]);
                assert(items_hash(open, x, 0) == open);
                assert(items_hash(open, y, 0) == open);
                assert(items_hash(open, x, 1) == exact_hash(open, x[0]));
                assert(items_hash(open, y, 1) == exact_hash(open, y[0]));
            } else {
                assert(x =~= y);
            }
        },
        JsonView::Object(x) => {
            let y = b->Object_0;
            if is_form(a) {
                fields_fit_in_the_size(a);
                fields_fit_in_the_size(b);
                form_field_order_is_not_hashed(hash, a, b);
            } else if is_json_body(a) {
                body_identity(a);
                plain_calls_are_hashed_exactly(
                    fnv(hash, seq![BODY_BYTE]),
                    a.member("json"@)->0,
                    b.member("json"@)->0,
                );
            } else {
                object_identity(x);
                object_identity(y);
                assert forall|i: int| 0 <= i < x.len() implies !applies((#[trigger] x[i]).1) by {
                    member_is_smaller(x, i);
                    assert(!applies(a->Object_0[i].1));
                }
                members_fit_in_the_size(x);
                members_fit_in_the_size(y);
                sorted_keys_are_the_keys(x);
                sorted_keys_are_the_keys(y);
                let p = sorted_keys(x);
                let q = sorted_keys(y);
                assert forall|key: Seq<char>| p.contains(key) == q.contains(key) by {
                    assert(member_identities(x).dom().contains(key) == member_identities(
                        y,
                    ).dom().contains(key));
                }
                assert forall|i: int| 0 <= i < p.len() implies q.contains(#[trigger] p[i]) by {
                    assert(p.contains(p[i]));
                }
                assert forall|i: int| 0 <= i < q.len() implies p.contains(#[trigger] q[i]) by {
                    assert(q.contains(q[i]));
                }
                assert(p.no_duplicates());
                assert(q.no_duplicates());
                p.unique_seq_to_set();
                q.unique_seq_to_set();
                assert(p.to_set() =~= q.to_set());
                sorted_texts_are_one_list(p, q);
                plain_members_are_hashed_exactly(fnv(hash, seq![OBJECT_OPEN]), x, y, x.len());
            }
        },
        _ => {},
    }
}

} // verus!
