//! What makes two calls the same call: the identity of their arguments.
//!
//! Order carries no meaning. An array is the multiset of its members, an
//! object is read by key, and a string that holds a JSON object or array is
//! that document, kept apart from the same document sent as an object. The
//! hash of a value is a function of its identity, so what compares values and
//! what looks them up by hash cannot disagree.

use vstd::multiset::Multiset;
use vstd::prelude::*;
use vstd::seq_lib::{to_multiset_contains, to_multiset_len, to_multiset_remove};
use vstd::utf8::{decode_utf8, valid_utf8};
use crate::fnv::{fnv1a_str, fnv_text, products_stay_apart, FNV_OFFSET_BASIS};
use crate::json::{
    distinct_keys, find, find_member, found_stands_under_its_key, group_json_view, item_is_smaller,
    item_is_well_formed, items_size, items_view, json_eq, json_eq_is_reflexive, key_is_found,
    member_is_smaller, member_is_well_formed, members_size, members_view, parse_json, parsed_json,
    Json, JsonView,
};
use crate::order::{
    arranged, order_by_text, order_is_stable, order_of, order_only_rearranges, text_le,
};
use crate::text::{
    chars_of, decimal, decimal_text, joined, spliced, splicing_undoes_splitting, split, split_on,
    text_eq, text_of_bytes, texts, trim, trimmed, trimmed_is_no_longer,
};

verus! {

/// The kind of a captured body whose content is a JSON document.
pub const JSON_REQUEST_BODY_KIND: &'static str = "JsonRequestBody";

/// The kind of a captured body whose content is a list of form fields.
pub const FORM_URLENCODED_REQUEST_BODY_KIND: &'static str = "FormUrlEncodedRequestBody";

/// What two values have in common when they are the same call.
pub enum Identity {
    Null,
    Bool(bool),
    Number(Seq<char>),
    Text(Seq<char>),
    /// A string that holds a document.
    Document(Box<Identity>),
    /// The fields of a form body.
    Form(Multiset<Seq<char>>),
    /// The document of a JSON body.
    Body(Box<Identity>),
    Object(Map<Seq<char>, Identity>),
    Array(Multiset<Identity>),
}

/// Whether a text starts and ends like a JSON object or array.
pub open spec fn bracketed(s: Seq<char>) -> bool {
    &&& s.len() > 0
    &&& ((s[0] == '{' && s.last() == '}') || (s[0] == '[' && s.last() == ']'))
}

/// A parsed document, where it is an object or an array.
pub open spec fn container(parsed: Option<JsonView>) -> Option<JsonView> {
    match parsed {
        Some(JsonView::Object(_)) => parsed,
        Some(JsonView::Array(_)) => parsed,
        _ => None,
    }
}

/// The document a text holds: an object or an array, with white space around
/// it set aside. Every document is well formed and no larger than its text.
pub open spec fn embedded(s: Seq<char>) -> Option<JsonView> {
    let t = trimmed(s);
    if bracketed(t) {
        match container(parsed_json(t)) {
            Some(d) => if d.wf() && d.size() <= s.len() {
                Some(d)
            } else {
                None
            },
            None => None,
        }
    } else {
        None
    }
}

/// A JSON array of numbers below 256, as bytes.
pub open spec fn bytes_in(items: Seq<JsonView>) -> Option<Seq<u8>>
    decreases items.len(),
{
    if items.len() == 0 {
        Some(Seq::<u8>::empty())
    } else {
        match (bytes_in(items.drop_last()), items.last().number_u64()) {
            (Some(before), Some(n)) => if n < 256 {
                Some(before.push(n as u8))
            } else {
                None
            },
            _ => None,
        }
    }
}

/// The text of a captured body: its `text`, or its `raw_bytes` where those are
/// UTF-8.
pub open spec fn body_text(v: JsonView) -> Option<Seq<char>> {
    match v.member("text"@) {
        Some(JsonView::String(t)) => Some(t),
        _ => match v.member("raw_bytes"@) {
            Some(JsonView::Array(items)) => match bytes_in(items) {
                Some(bytes) => if valid_utf8(bytes) {
                    Some(decode_utf8(bytes))
                } else {
                    None
                },
                None => None,
            },
            _ => None,
        },
    }
}

/// Whether a value is a captured form body: its kind says so and it has a text.
pub open spec fn is_form(v: JsonView) -> bool {
    &&& v.member("kind"@) == Some(JsonView::String(FORM_URLENCODED_REQUEST_BODY_KIND@))
    &&& body_text(v) is Some
}

/// Whether a value is a captured JSON body: its kind says so and it has a
/// document.
pub open spec fn is_json_body(v: JsonView) -> bool {
    &&& v.member("kind"@) == Some(JsonView::String(JSON_REQUEST_BODY_KIND@))
    &&& match v.member("json"@) {
        Some(JsonView::Null) => false,
        Some(_) => true,
        None => false,
    }
}

/// The fields of a form body.
pub open spec fn form_fields(v: JsonView) -> Seq<Seq<char>> {
    split_on(body_text(v)->0, '&')
}

/// The identity of a value.
pub open spec fn identity_of(v: JsonView) -> Identity
    decreases v.size(), 0nat,
{
    match v {
        JsonView::Null => Identity::Null,
        JsonView::Bool(b) => Identity::Bool(b),
        JsonView::Number(n) => Identity::Number(n),
        JsonView::String(s) => match embedded(s) {
            Some(d) => Identity::Document(Box::new(identity_of(d))),
            None => Identity::Text(s),
        },
        JsonView::Object(s) => if is_form(v) {
            Identity::Form(form_fields(v).to_multiset())
        } else if is_json_body(v) {
            let d = v.member("json"@)->0;
            if d.size() < v.size() {
                Identity::Body(Box::new(identity_of(d)))
            } else {
                Identity::Null
            }
        } else {
            Identity::Object(
                Map::new(
                    |key: Seq<char>| find(s, key) is Some,
                    |key: Seq<char>|
                        {
                            let d = find(s, key)->0;
                            if d.size() < v.size() {
                                identity_of(d)
                            } else {
                                Identity::Null
                            }
                        },
                ),
            )
        },
        JsonView::Array(s) => Identity::Array(identities(s).to_multiset()),
    }
}

/// The identities of an array's members.
pub open spec fn identities(s: Seq<JsonView>) -> Seq<Identity>
    decreases items_size(s), 1nat,
{
    if s.len() == 0 {
        Seq::empty()
    } else {
        identities(s.drop_last()).push(identity_of(s.last()))
    }
}

/// The identities of an array's members, member by member.
pub proof fn identities_are_the_members(s: Seq<JsonView>)
    ensures
        identities(s) == Seq::new(s.len(), |i: int| identity_of(s[i])),
    decreases s.len(),
{
    if s.len() > 0 {
        identities_are_the_members(s.drop_last());
    }
    assert(identities(s) =~= Seq::new(s.len(), |i: int| identity_of(s[i])));
}

/// The identities of an object's members, by key.
pub open spec fn member_identities(s: Seq<(Seq<char>, JsonView)>) -> Map<Seq<char>, Identity> {
    Map::new(|key: Seq<char>| find(s, key) is Some, |key: Seq<char>| identity_of(find(s, key)->0))
}

/// An object that is no captured body is read by key.
pub proof fn object_identity(s: Seq<(Seq<char>, JsonView)>)
    requires
        !is_form(JsonView::Object(s)),
        !is_json_body(JsonView::Object(s)),
    ensures
        identity_of(JsonView::Object(s)) == Identity::Object(member_identities(s)),
{
    let v = JsonView::Object(s);
    let own = identity_of(v)->Object_0;
    assert forall|key: Seq<char>| #[trigger] own.dom().contains(key) implies own[key]
        == member_identities(s)[key] by {
        let i = found_stands_under_its_key(s, key);
    }
    assert(own =~= member_identities(s));
}

/// The document of a JSON body is its identity.
pub proof fn body_identity(v: JsonView)
    requires
        v is Object,
        !is_form(v),
        is_json_body(v),
    ensures
        identity_of(v) == Identity::Body(Box::new(identity_of(v.member("json"@)->0))),
        (v.member("json"@)->0).size() < v.size(),
        v.wf() ==> (v.member("json"@)->0).wf(),
{
    let s = v->Object_0;
    let i = found_stands_under_its_key(s, "json"@);
    if v.wf() {
        assert(s[i].1.wf());
    }
}

pub const NULL_TAG: u64 = 0x6e75_6c6c;

pub const BOOL_TAG: u64 = 0x626f_6f6c;

pub const NUMBER_TAG: u64 = 0x6e75_6d;

pub const TEXT_TAG: u64 = 0x7374_72;

pub const ARRAY_TAG: u64 = 0x6172_7261_79;

pub const OBJECT_TAG: u64 = 0x6f62_6a65_6374;

pub const DOCUMENT_TAG: u64 = 0x646f_63;

pub const FORM_TAG: u64 = 0x666f_726d;

pub const BODY_TAG: u64 = 0x626f_6479;

/// The bits of a number moved up by `k` places, those that leave the top
/// coming in at the bottom.
#[verifier::opaque]
pub open spec fn rotated(x: u64, k: u64) -> u64 {
    (x << k) | (x >> ((64 - k) as u64))
}

fn rotate(x: u64, k: u64) -> (r: u64)
    requires
        0 < k < 64,
    ensures
        r == rotated(x, k),
{
    reveal(rotated);
    (x << k) | (x >> (64 - k))
}

/// The finaliser of splitmix64: spreads every bit of the input over the output.
#[verifier::opaque]
pub open spec fn finalised(x: u64) -> u64 {
    let a = x.wrapping_add(0x9e37_79b9_7f4a_7c15);
    let b = (a ^ (a >> 30)).wrapping_mul(0xbf58_476d_1ce4_e5b9);
    let c = (b ^ (b >> 27)).wrapping_mul(0x94d0_49bb_1331_11eb);
    c ^ (c >> 31)
}

/// Spreads every bit of the input over the output, as splitmix64 does.
pub fn finalise(x: u64) -> (r: u64)
    ensures
        r == finalised(x),
{
    reveal(finalised);
    let a: u64 = x.wrapping_add(0x9e37_79b9_7f4a_7c15);
    let b: u64 = (a ^ (a >> 30)).wrapping_mul(0xbf58_476d_1ce4_e5b9);
    let c: u64 = (b ^ (b >> 27)).wrapping_mul(0x94d0_49bb_1331_11eb);
    c ^ (c >> 31)
}

/// A hash set apart by a tag.
pub open spec fn tagged(tag: u64, inner: u64) -> u64 {
    finalised(tag ^ rotated(inner, 17))
}

fn tag_hash(tag: u64, inner: u64) -> (r: u64)
    ensures
        r == tagged(tag, inner),
{
    finalise(tag ^ rotate(inner, 17))
}

/// The sum of the finalised hashes.
pub open spec fn total(hashes: Seq<u64>) -> int
    decreases hashes.len(),
{
    if hashes.len() == 0 {
        0
    } else {
        total(hashes.drop_last()) + finalised(hashes.last())
    }
}

/// The hash of a collection whose order carries no meaning: the finalised
/// hashes of its members are summed, and their number is mixed in.
pub open spec fn unordered(tag: u64, hashes: Seq<u64>) -> u64 {
    let sum = (total(hashes) % 0x1_0000_0000_0000_0000) as u64;
    tagged(tag, finalised(sum ^ (hashes.len() as u64)))
}

/// The hash of an object's member: its key, and its value's hash moved apart
/// from it.
pub open spec fn member_hash(key: Seq<char>, value_hash: u64) -> u64 {
    fnv_text(FNV_OFFSET_BASIS, key) ^ rotated(value_hash, 29)
}

/// The hashes of texts.
pub open spec fn text_hashes(s: Seq<Seq<char>>) -> Seq<u64> {
    s.map_values(|t: Seq<char>| fnv_text(FNV_OFFSET_BASIS, t))
}

/// The hash of a value.
pub open spec fn hash_of(v: JsonView) -> u64
    decreases v.size(), 0nat,
{
    match v {
        JsonView::Null => finalised(NULL_TAG),
        JsonView::Bool(b) => finalised(BOOL_TAG ^ (if b { 1u64 } else { 0u64 })),
        JsonView::Number(n) => tagged(NUMBER_TAG, fnv_text(FNV_OFFSET_BASIS, n)),
        JsonView::String(s) => match embedded(s) {
            Some(d) => tagged(DOCUMENT_TAG, hash_of(d)),
            None => tagged(TEXT_TAG, fnv_text(FNV_OFFSET_BASIS, s)),
        },
        JsonView::Object(s) => if is_form(v) {
            unordered(FORM_TAG, text_hashes(form_fields(v)))
        } else if is_json_body(v) {
            let d = v.member("json"@)->0;
            tagged(
                BODY_TAG,
                if d.size() < v.size() {
                    hash_of(d)
                } else {
                    0
                },
            )
        } else {
            unordered(OBJECT_TAG, member_hashes(s))
        },
        JsonView::Array(s) => unordered(ARRAY_TAG, item_hashes(s)),
    }
}

/// The hashes of an array's members.
pub open spec fn item_hashes(s: Seq<JsonView>) -> Seq<u64>
    decreases items_size(s), 1nat,
{
    if s.len() == 0 {
        Seq::empty()
    } else {
        item_hashes(s.drop_last()).push(hash_of(s.last()))
    }
}

/// The hashes of an object's members.
pub open spec fn member_hashes(s: Seq<(Seq<char>, JsonView)>) -> Seq<u64>
    decreases members_size(s), 1nat,
{
    if s.len() == 0 {
        Seq::empty()
    } else {
        member_hashes(s.drop_last()).push(member_hash(s.last().0, hash_of(s.last().1)))
    }
}

proof fn item_hashes_are_of_the_members(s: Seq<JsonView>)
    ensures
        item_hashes(s) == Seq::new(s.len(), |i: int| hash_of(s[i])),
    decreases s.len(),
{
    if s.len() > 0 {
        item_hashes_are_of_the_members(s.drop_last());
    }
    assert(item_hashes(s) =~= Seq::new(s.len(), |i: int| hash_of(s[i])));
}

proof fn member_hashes_are_of_the_members(s: Seq<(Seq<char>, JsonView)>)
    ensures
        member_hashes(s) == Seq::new(s.len(), |i: int| member_hash(s[i].0, hash_of(s[i].1))),
    decreases s.len(),
{
    if s.len() > 0 {
        member_hashes_are_of_the_members(s.drop_last());
    }
    assert(member_hashes(s) =~= Seq::new(s.len(), |i: int| member_hash(s[i].0, hash_of(s[i].1))));
}

/// Taking one hash out takes its share out of the sum.
proof fn total_without_one(s: Seq<u64>, i: int)
    requires
        0 <= i < s.len(),
    ensures
        total(s) == total(s.remove(i)) + finalised(s[i]),
    decreases s.len(),
{
    if i == s.len() - 1 {
        assert(s.remove(i) =~= s.drop_last());
    } else {
        total_without_one(s.drop_last(), i);
        assert(s.remove(i).drop_last() =~= s.drop_last().remove(i));
    }
}

/// The members of two arrays with one multiset of identities have one sum.
proof fn members_with_one_multiset_have_one_sum(s: Seq<JsonView>, t: Seq<JsonView>, bound: nat)
    requires
        identities(s).to_multiset() == identities(t).to_multiset(),
        forall|i: int| 0 <= i < s.len() ==> (#[trigger] s[i]).wf() && s[i].size() < bound,
        forall|i: int| 0 <= i < t.len() ==> (#[trigger] t[i]).wf(),
    ensures
        s.len() == t.len(),
        total(item_hashes(s)) == total(item_hashes(t)),
    decreases bound, 0nat, s.len(),
{
    identities_are_the_members(s);
    identities_are_the_members(t);
    to_multiset_len(identities(s));
    to_multiset_len(identities(t));
    if s.len() > 0 {
        let last = s.len() - 1;
        let id = identity_of(s[last]);
        assert(identities(s)[last] == id);
        to_multiset_contains(identities(s), id);
        to_multiset_contains(identities(t), id);
        let j = choose|j: int| 0 <= j < identities(t).len() && identities(t)[j] == id;
        same_identity_same_hash(s[last], t[j]);
        to_multiset_remove(identities(s), last);
        to_multiset_remove(identities(t), j);
        identities_are_the_members(s.remove(last));
        identities_are_the_members(t.remove(j));
        item_hashes_are_of_the_members(s);
        item_hashes_are_of_the_members(t);
        item_hashes_are_of_the_members(s.remove(last));
        item_hashes_are_of_the_members(t.remove(j));
        assert(identities(s).remove(last) =~= identities(s.remove(last)));
        assert(identities(t).remove(j) =~= identities(t.remove(j)));
        members_with_one_multiset_have_one_sum(s.remove(last), t.remove(j), bound);
        total_without_one(item_hashes(s), last);
        total_without_one(item_hashes(t), j);
        assert(item_hashes(s).remove(last) =~= item_hashes(s.remove(last)));
        assert(item_hashes(t).remove(j) =~= item_hashes(t.remove(j)));
    }
}

/// Two lists of texts with one multiset have one sum.
proof fn texts_with_one_multiset_have_one_sum(s: Seq<Seq<char>>, t: Seq<Seq<char>>)
    requires
        s.to_multiset() == t.to_multiset(),
    ensures
        s.len() == t.len(),
        total(text_hashes(s)) == total(text_hashes(t)),
    decreases s.len(),
{
    to_multiset_len(s);
    to_multiset_len(t);
    if s.len() > 0 {
        let last = s.len() - 1;
        to_multiset_contains(s, s[last]);
        to_multiset_contains(t, s[last]);
        let j = choose|j: int| 0 <= j < t.len() && t[j] == s[last];
        to_multiset_remove(s, last);
        to_multiset_remove(t, j);
        texts_with_one_multiset_have_one_sum(s.remove(last), t.remove(j));
        total_without_one(text_hashes(s), last);
        total_without_one(text_hashes(t), j);
        assert(text_hashes(s).remove(last) =~= text_hashes(s.remove(last)));
        assert(text_hashes(t).remove(j) =~= text_hashes(t.remove(j)));
    }
}

/// Taking a member out takes its key out.
proof fn find_without_one(s: Seq<(Seq<char>, JsonView)>, i: int, key: Seq<char>)
    requires
        0 <= i < s.len(),
        distinct_keys(s),
    ensures
        distinct_keys(s.remove(i)),
        find(s.remove(i), key) == (if key == s[i].0 {
            None
        } else {
            find(s, key)
        }),
    decreases s.len(),
{
    let t = s.remove(i);
    assert forall|a: int, b: int| 0 <= a < b < t.len() implies (#[trigger] t[a]).0 != (
    #[trigger] t[b]).0 by {
        let a0 = if a < i { a } else { a + 1 };
        let b0 = if b < i { b } else { b + 1 };
        assert(s[a0].0 != s[b0].0);
    }
    if key == s[i].0 {
        if find(t, key) is Some {
            let j = found_stands_under_its_key(t, key);
            let j0 = if j < i { j } else { j + 1 };
            assert(s[j0].0 == s[i].0);
            assert(false);
        }
    } else {
        if find(s, key) is Some {
            let j = found_stands_under_its_key(s, key);
            let j0 = if j < i { j } else { j - 1 };
            assert(t[j0] == s[j]);
            key_is_found(t, j0);
        } else if find(t, key) is Some {
            let j = found_stands_under_its_key(t, key);
            let j0 = if j < i { j } else { j + 1 };
            assert(t[j] == s[j0]);
            key_is_found(s, j0);
        }
    }
}

proof fn reading_without_one(s: Seq<(Seq<char>, JsonView)>, i: int)
    requires
        0 <= i < s.len(),
        distinct_keys(s),
    ensures
        member_identities(s.remove(i)) == member_identities(s).remove(s[i].0),
{
    let a = member_identities(s.remove(i));
    let b = member_identities(s).remove(s[i].0);
    assert forall|k: Seq<char>| #[trigger] a.dom().contains(k) == b.dom().contains(k) by {
        find_without_one(s, i, k);
    }
    assert forall|k: Seq<char>| #[trigger] a.dom().contains(k) implies a[k] == b[k] by {
        find_without_one(s, i, k);
    }
    assert(a =~= b);
}

/// The members of two objects that read alike by key have one sum.
proof fn members_with_one_reading_have_one_sum(
    s: Seq<(Seq<char>, JsonView)>,
    t: Seq<(Seq<char>, JsonView)>,
    bound: nat,
)
    requires
        distinct_keys(s),
        distinct_keys(t),
        member_identities(s) == member_identities(t),
        forall|i: int| 0 <= i < s.len() ==> (#[trigger] s[i]).1.wf() && s[i].1.size() < bound,
        forall|i: int| 0 <= i < t.len() ==> (#[trigger] t[i]).1.wf(),
    ensures
        s.len() == t.len(),
        total(member_hashes(s)) == total(member_hashes(t)),
    decreases bound, 0nat, s.len(),
{
    if s.len() == 0 {
        if t.len() > 0 {
            key_is_found(t, 0);
            assert(member_identities(t).dom().contains(t[0].0));
            assert(member_identities(s).dom().contains(t[0].0));
        }
    } else {
        let last = s.len() - 1;
        let key = s[last].0;
        key_is_found(s, last);
        assert(member_identities(s).dom().contains(key));
        assert(member_identities(t).dom().contains(key));
        let j = found_stands_under_its_key(t, key);
        assert(member_identities(s)[key] == identity_of(s[last].1));
        assert(member_identities(t)[key] == identity_of(t[j].1));
        same_identity_same_hash(s[last].1, t[j].1);
        let s1 = s.remove(last);
        let t1 = t.remove(j);
        find_without_one(s, last, key);
        find_without_one(t, j, key);
        assert(member_identities(s1) =~= member_identities(s).remove(key)) by {
            reading_without_one(s, last);
        }
        assert(member_identities(t1) =~= member_identities(t).remove(key)) by {
            reading_without_one(t, j);
        }
        assert(member_identities(s1) =~= member_identities(t1));
        members_with_one_reading_have_one_sum(s1, t1, bound);
        member_hashes_are_of_the_members(s);
        member_hashes_are_of_the_members(t);
        member_hashes_are_of_the_members(s1);
        member_hashes_are_of_the_members(t1);
        total_without_one(member_hashes(s), last);
        total_without_one(member_hashes(t), j);
        assert(member_hashes(s).remove(last) =~= member_hashes(s1));
        assert(member_hashes(t).remove(j) =~= member_hashes(t1));
    }
}

/// Two values that are one identity have one hash.
pub proof fn same_identity_same_hash(a: JsonView, b: JsonView)
    requires
        a.wf(),
        b.wf(),
        identity_of(a) == identity_of(b),
    ensures
        hash_of(a) == hash_of(b),
    decreases a.size(), 1nat, 0nat,
{
    if a is Object && !is_form(a) && is_json_body(a) {
        body_identity(a);
    }
    if b is Object && !is_form(b) && is_json_body(b) {
        body_identity(b);
    }
    match (a, b) {
        (JsonView::String(x), JsonView::String(y)) => {
            if embedded(x) is Some {
                same_identity_same_hash(embedded(x)->0, embedded(y)->0);
            }
        },
        (JsonView::Array(x), JsonView::Array(y)) => {
            item_hashes_are_of_the_members(x);
            item_hashes_are_of_the_members(y);
            assert forall|i: int| 0 <= i < x.len() implies (#[trigger] x[i]).wf() && x[i].size()
                < a.size() by {
                item_is_smaller(x, i);
            }
            members_with_one_multiset_have_one_sum(x, y, a.size());
        },
        (JsonView::Object(x), JsonView::Object(y)) => {
            if is_form(a) {
                texts_with_one_multiset_have_one_sum(form_fields(a), form_fields(b));
            } else if is_json_body(a) {
                same_identity_same_hash(a.member("json"@)->0, b.member("json"@)->0);
            } else {
                object_identity(x);
                if !is_form(b) && !is_json_body(b) {
                    object_identity(y);
                    assert forall|i: int| 0 <= i < x.len() implies (#[trigger] x[i]).1.wf()
                        && x[i].1.size() < a.size() by {
                        member_is_smaller(x, i);
                    }
                    members_with_one_reading_have_one_sum(x, y, a.size());
                    member_hashes_are_of_the_members(x);
                    member_hashes_are_of_the_members(y);
                }
            }
        },
        _ => {},
    }
}


/// A parsed document, where it is an object or an array.
pub fn document_of(parsed: Option<Json>) -> (r: Option<Json>)
    ensures
        match r {
            Some(d) => parsed is Some && d@ == (parsed->0)@ && container(Some((parsed->0)@)) is Some,
            None => parsed matches Some(d) ==> container(Some(d@)) is None,
        },
{
    match parsed {
        Some(d) => {
            let holds = match &d {
                Json::Object(_) => true,
                Json::Array(_) => true,
                _ => false,
            };
            if holds {
                Some(d)
            } else {
                None
            }
        },
        None => None,
    }
}

/// The document a string holds: a JSON object or array, parsed. Anything else,
/// a JSON scalar too, stays text. Only a text that starts and ends like a
/// document is parsed at all.
pub fn embedded_document(text: &str) -> (r: Option<Json>)
    ensures
        match r {
            Some(d) => embedded(text@) == Some(d@),
            None => embedded(text@) is None,
        },
        r matches Some(d) ==> d@.wf() && d@.size() <= text@.len(),
{
    let t = trim(text);
    let chars = chars_of(t.as_str());
    let n: usize = chars.len();
    if n == 0 {
        return None;
    }
    let around = (chars[0] == '{' && chars[n - 1] == '}') || (chars[0] == '[' && chars[n - 1]
        == ']');
    if !around {
        return None;
    }
    proof {
        trimmed_is_no_longer(text@);
    }
    document_of(parse_json(t.as_str()))
}

/// The numbers of a JSON array as bytes, where each is below 256.
#[verifier::loop_isolation(false)]
fn byte_items(items: &Vec<Json>) -> (r: Option<Vec<u8>>)
    ensures
        match r {
            Some(b) => bytes_in(items_view(items@)) == Some(b@),
            None => bytes_in(items_view(items@)) is None,
        },
{
    let ghost all = items_view(items@);
    let mut out: Vec<u8> = Vec::new();
    let mut i: usize = 0;
    proof {
        assert(all.take(0) =~= Seq::<JsonView>::empty());
    }
    while i < items.len()
        invariant
            0 <= i <= items@.len(),
            bytes_in(all.take(i as int)) == Some(out@),
        decreases items@.len() - i,
    {
        proof {
            assert(all.take(i as int + 1).drop_last() =~= all.take(i as int));
            assert(all.take(i as int + 1).last() == items@[i as int]@);
        }
        match items[i].as_u64() {
            Some(n) => {
                if n >= 256 {
                    proof {
                        bytes_need_every_item(all, i as int + 1);
                    }
                    return None;
                }
                out.push(n as u8);
            },
            None => {
                proof {
                    bytes_need_every_item(all, i as int + 1);
                }
                return None;
            },
        }
        i = i + 1;
    }
    proof {
        assert(all.take(all.len() as int) =~= all);
    }
    Some(out)
}

proof fn bytes_need_every_item(s: Seq<JsonView>, i: int)
    requires
        0 <= i <= s.len(),
        bytes_in(s.take(i)) is None,
    ensures
        bytes_in(s) is None,
    decreases s.len(),
{
    if i == s.len() {
        assert(s.take(i) =~= s);
    } else {
        assert(s.drop_last().take(i) =~= s.take(i));
        bytes_need_every_item(s.drop_last(), i);
    }
}

/// The text of a captured body: its `text`, or its `raw_bytes` where those are
/// UTF-8.
pub fn request_body_text(value: &Json) -> (r: Option<String>)
    ensures
        match r {
            Some(t) => body_text(value@) == Some(t@),
            None => body_text(value@) is None,
        },
{
    broadcast use group_json_view;

    if let Some(found) = value.get("text") {
        if let Json::String(t) = found {
            return Some(t.clone());
        }
    }
    if let Some(found) = value.get("raw_bytes") {
        if let Json::Array(items) = found {
            return match byte_items(items) {
                Some(bytes) => text_of_bytes(bytes),
                None => None,
            };
        }
    }
    None
}

/// Whether a value is a captured form body.
pub fn is_form_request_body(value: &Json) -> (r: bool)
    ensures
        r == is_form(value@),
{
    let kind = match value.get("kind") {
        Some(kind) => kind.is_text(FORM_URLENCODED_REQUEST_BODY_KIND),
        None => false,
    };
    kind && request_body_text(value).is_some()
}

/// Whether a value is a captured JSON body.
pub fn is_json_request_body(value: &Json) -> (r: bool)
    ensures
        r == is_json_body(value@),
{
    let kind = match value.get("kind") {
        Some(kind) => kind.is_text(JSON_REQUEST_BODY_KIND),
        None => false,
    };
    let held = match value.get("json") {
        Some(json) => !json.is_null(),
        None => false,
    };
    kind && held
}

/// The fields of a captured form body.
fn fields_of(value: &Json) -> (r: Vec<String>)
    requires
        is_form(value@),
    ensures
        texts(r@) == form_fields(value@),
{
    match request_body_text(value) {
        Some(text) => split(text.as_str(), '&'),
        None => Vec::new(),
    }
}

/// Adds a finalised hash to a running sum.
fn add_hash(sum: u64, hash: u64, Ghost(before): Ghost<Seq<u64>>) -> (r: u64)
    requires
        sum == total(before) % 0x1_0000_0000_0000_0000,
    ensures
        r == total(before.push(hash)) % 0x1_0000_0000_0000_0000,
{
    proof {
        assert(before.push(hash).drop_last() =~= before);
        vstd::arithmetic::div_mod::lemma_add_mod_noop(
            total(before),
            finalised(hash) as int,
            0x1_0000_0000_0000_0000,
        );
    }
    sum.wrapping_add(finalise(hash))
}

/// The hash of a value: the same for every order of an array's members, or of
/// an object's. A repeated member adds twice, so multiplicity counts.
#[verifier::loop_isolation(false)]
pub fn element_hash(value: &Json) -> (r: u64)
    ensures
        r == hash_of(value@),
    decreases value@.size(),
{
    broadcast use group_json_view;

    match value {
        Json::Null => finalise(NULL_TAG),
        Json::Bool(b) => finalise(
            BOOL_TAG ^ (if *b {
                1u64
            } else {
                0u64
            }),
        ),
        Json::Number(n) => tag_hash(NUMBER_TAG, fnv1a_str(FNV_OFFSET_BASIS, n.as_str())),
        Json::String(text) => match embedded_document(text.as_str()) {
            Some(document) => tag_hash(DOCUMENT_TAG, element_hash(&document)),
            None => tag_hash(TEXT_TAG, fnv1a_str(FNV_OFFSET_BASIS, text.as_str())),
        },
        Json::Object(members) => {
            if is_form_request_body(value) {
                let fields = fields_of(value);
                let ghost all = text_hashes(texts(fields@));
                let mut sum: u64 = 0;
                let mut i: usize = 0;
                proof {
                    assert(all.take(0) =~= Seq::<u64>::empty());
                }
                while i < fields.len()
                    invariant
                        0 <= i <= fields@.len(),
                        sum == total(all.take(i as int)) % 0x1_0000_0000_0000_0000,
                    decreases fields@.len() - i,
                {
                    let h: u64 = fnv1a_str(FNV_OFFSET_BASIS, fields[i].as_str());
                    sum = add_hash(sum, h, Ghost(all.take(i as int)));
                    proof {
                        assert(all.take(i as int).push(h) =~= all.take(i as int + 1));
                    }
                    i = i + 1;
                }
                proof {
                    assert(all.take(all.len() as int) =~= all);
                }
                tag_hash(FORM_TAG, finalise(sum ^ (fields.len() as u64)))
            } else if is_json_request_body(value) {
                proof {
                    body_identity(value@);
                }
                match value.get("json") {
                    Some(json) => tag_hash(BODY_TAG, element_hash(json)),
                    None => tag_hash(BODY_TAG, 0),
                }
            } else {
                let ghost all = members_view(members@);
                let mut sum: u64 = 0;
                let mut i: usize = 0;
                proof {
                    assert(all.take(0) =~= Seq::<(Seq<char>, JsonView)>::empty());
                }
                while i < members.len()
                    invariant
                        0 <= i <= members@.len(),
                        sum == total(member_hashes(all.take(i as int))) % 0x1_0000_0000_0000_0000,
                    decreases members@.len() - i,
                {
                    proof {
                        member_is_smaller(all, i as int);
                        assert(all.take(i as int + 1).drop_last() =~= all.take(i as int));
                    }
                    let key: u64 = fnv1a_str(FNV_OFFSET_BASIS, members[i].0.as_str());
                    let h: u64 = key ^ rotate(element_hash(&members[i].1), 29);
                    sum = add_hash(sum, h, Ghost(member_hashes(all.take(i as int))));
                    i = i + 1;
                }
                proof {
                    assert(all.take(all.len() as int) =~= all);
                    member_hashes_are_of_the_members(all);
                }
                tag_hash(OBJECT_TAG, finalise(sum ^ (members.len() as u64)))
            }
        },
        Json::Array(items) => {
            let ghost all = items_view(items@);
            let mut sum: u64 = 0;
            let mut i: usize = 0;
            proof {
                assert(all.take(0) =~= Seq::<JsonView>::empty());
            }
            while i < items.len()
                invariant
                    0 <= i <= items@.len(),
                    sum == total(item_hashes(all.take(i as int))) % 0x1_0000_0000_0000_0000,
                decreases items@.len() - i,
            {
                proof {
                    item_is_smaller(all, i as int);
                    assert(all.take(i as int + 1).drop_last() =~= all.take(i as int));
                }
                let h: u64 = element_hash(&items[i]);
                sum = add_hash(sum, h, Ghost(item_hashes(all.take(i as int))));
                i = i + 1;
            }
            proof {
                assert(all.take(all.len() as int) =~= all);
                item_hashes_are_of_the_members(all);
            }
            tag_hash(ARRAY_TAG, finalise(sum ^ (items.len() as u64)))
        },
    }
}

/// The lookup hash of a call's identity.
pub fn identity_args_hash(args: &Json) -> (r: u64)
    ensures
        r == hash_of(args@),
{
    element_hash(args)
}

/// Whether two lists of fields hold the same fields, each as often.
#[verifier::loop_isolation(false)]
fn same_fields(x: &Vec<String>, y: &Vec<String>) -> (r: bool)
    ensures
        r == (texts(x@).to_multiset() == texts(y@).to_multiset()),
{
    let ghost tx = texts(x@);
    let ghost ty = texts(y@);
    proof {
        to_multiset_len(tx);
        to_multiset_len(ty);
    }
    if x.len() != y.len() {
        return false;
    }
    let mut left: Vec<usize> = Vec::new();
    let mut k: usize = 0;
    while k < y.len()
        invariant
            0 <= k <= y@.len(),
            left@ == Seq::new(k as nat, |j: int| j as usize),
        decreases y@.len() - k,
    {
        left.push(k);
        k = k + 1;
        proof {
            assert(left@ =~= Seq::new(k as nat, |j: int| j as usize));
        }
    }
    let mut i: usize = 0;
    proof {
        assert(tx.skip(0) =~= tx);
        assert(picked(ty, left@) =~= ty);
    }
    while i < x.len()
        invariant
            0 <= i <= x@.len(),
            left@.len() == x@.len() - i,
            forall|j: int| 0 <= j < left@.len() ==> (#[trigger] left@[j]) < y@.len(),
            (tx.to_multiset() == ty.to_multiset()) == (tx.skip(i as int).to_multiset() == picked(
                ty,
                left@,
            ).to_multiset()),
        decreases x@.len() - i,
    {
        let ghost rest = tx.skip(i as int);
        let ghost open = picked(ty, left@);
        let mut j: usize = 0;
        while j < left.len() && !text_eq(x[i].as_str(), y[left[j]].as_str())
            invariant
                0 <= j <= left@.len(),
                forall|m: int| 0 <= m < j ==> #[trigger] open[m] != tx[i as int],
            decreases left@.len() - j,
        {
            j = j + 1;
        }
        proof {
            assert(rest[0] == tx[i as int]);
            to_multiset_contains(rest, tx[i as int]);
            to_multiset_contains(open, tx[i as int]);
        }
        if j == left.len() {
            return false;
        }
        proof {
            one_pair_less(rest, open, j as int);
            assert(rest.remove(0) =~= tx.skip(i as int + 1));
            assert(open.remove(j as int) =~= picked(ty, left@.remove(j as int)));
        }
        left.remove(j);
        i = i + 1;
    }
    proof {
        assert(tx.skip(x@.len() as int) =~= Seq::<Seq<char>>::empty());
        assert(picked(ty, left@) =~= Seq::<Seq<char>>::empty());
    }
    true
}

/// The members of `s` at the given places.
spec fn picked<T>(s: Seq<T>, places: Seq<usize>) -> Seq<T> {
    places.map_values(|p: usize| s[p as int])
}

/// Taking equal members out of two lists leaves their multisets as equal, or
/// as different, as they were.
proof fn one_pair_less<T>(a: Seq<T>, b: Seq<T>, j: int)
    requires
        a.len() > 0,
        0 <= j < b.len(),
        a[0] == b[j],
    ensures
        (a.to_multiset() == b.to_multiset()) == (a.remove(0).to_multiset() == b.remove(
            j,
        ).to_multiset()),
{
    to_multiset_remove(a, 0);
    to_multiset_remove(b, j);
    to_multiset_contains(a, a[0]);
    to_multiset_contains(b, b[j]);
    if a.remove(0).to_multiset() == b.remove(j).to_multiset() {
        assert(a.to_multiset() =~= a.remove(0).to_multiset().insert(a[0]));
        assert(b.to_multiset() =~= b.remove(j).to_multiset().insert(b[j]));
    }
}

/// Whether two values are one identity.
pub fn same(a: &Json, b: &Json) -> (r: bool)
    requires
        a@.wf(),
        b@.wf(),
    ensures
        r == (identity_of(a@) == identity_of(b@)),
    decreases a@.size(), 1nat,
{
    broadcast use group_json_view;

    proof {
        if a@ is Object && !is_form(a@) && is_json_body(a@) {
            body_identity(a@);
        }
        if b@ is Object && !is_form(b@) && is_json_body(b@) {
            body_identity(b@);
        }
    }
    match (a, b) {
        (Json::Null, Json::Null) => true,
        (Json::Bool(x), Json::Bool(y)) => *x == *y,
        (Json::Number(x), Json::Number(y)) => text_eq(x.as_str(), y.as_str()),
        (Json::String(x), Json::String(y)) => {
            match (embedded_document(x.as_str()), embedded_document(y.as_str())) {
                (Some(dx), Some(dy)) => same(&dx, &dy),
                (None, None) => text_eq(x.as_str(), y.as_str()),
                _ => false,
            }
        },
        (Json::Object(x), Json::Object(y)) => {
            if is_form_request_body(a) {
                is_form_request_body(b) && same_fields(&fields_of(a), &fields_of(b))
            } else if is_json_request_body(a) {
                if is_form_request_body(b) || !is_json_request_body(b) {
                    return false;
                }
                match (a.get("json"), b.get("json")) {
                    (Some(dx), Some(dy)) => same(dx, dy),
                    _ => false,
                }
            } else {
                if is_form_request_body(b) || is_json_request_body(b) {
                    return false;
                }
                proof {
                    object_identity(members_view(x@));
                    object_identity(members_view(y@));
                }
                same_by_key(x, y)
            }
        },
        (Json::Array(x), Json::Array(y)) => same_members(x, y),
        _ => false,
    }
}

/// Every key of one list of distinct keys standing in another that is no
/// longer, every key of the other stands in the one.
pub proof fn keys_of_both(x: Seq<(Seq<char>, JsonView)>, y: Seq<(Seq<char>, JsonView)>)
    requires
        distinct_keys(x),
        distinct_keys(y),
        x.len() == y.len(),
        forall|i: int| 0 <= i < x.len() ==> find(y, (#[trigger] x[i]).0) is Some,
    ensures
        forall|key: Seq<char>| find(x, key) is Some <==> find(y, key) is Some,
{
    let kx = Seq::new(x.len(), |i: int| x[i].0);
    let ky = Seq::new(y.len(), |i: int| y[i].0);
    kx.unique_seq_to_set();
    ky.unique_seq_to_set();
    assert forall|key: Seq<char>| kx.to_set().contains(key) implies ky.to_set().contains(key) by {
        let i = choose|i: int| 0 <= i < kx.len() && kx[i] == key;
        assert(find(y, x[i].0) is Some);
        let j = found_stands_under_its_key(y, key);
        assert(ky[j] == key);
    }
    vstd::set_lib::lemma_subset_equality(kx.to_set(), ky.to_set());
    assert forall|key: Seq<char>| find(x, key) is Some <==> find(y, key) is Some by {
        if find(x, key) is Some {
            let i = found_stands_under_its_key(x, key);
            assert(find(y, x[i].0) is Some);
        }
        if find(y, key) is Some {
            let j = found_stands_under_its_key(y, key);
            assert(ky[j] == key);
            assert(ky.to_set().contains(key));
            assert(kx.to_set().contains(key));
            let i = choose|i: int| 0 <= i < kx.len() && kx[i] == key;
            key_is_found(x, i);
        }
    }
}

/// Whether two objects read alike by key.
#[verifier::loop_isolation(false)]
fn same_by_key(x: &Vec<(String, Json)>, y: &Vec<(String, Json)>) -> (r: bool)
    requires
        JsonView::Object(members_view(x@)).wf(),
        JsonView::Object(members_view(y@)).wf(),
    ensures
        r == (member_identities(members_view(x@)) == member_identities(members_view(y@))),
    decreases JsonView::Object(members_view(x@)).size(), 0nat,
{
    let ghost mx = members_view(x@);
    let ghost my = members_view(y@);
    let ghost rx = member_identities(mx);
    let ghost ry = member_identities(my);
    if x.len() != y.len() {
        proof {
            if rx == ry {
                assert forall|i: int| 0 <= i < mx.len() implies (#[trigger] mx[i]).1.wf()
                    && mx[i].1.size() < JsonView::Object(mx).size() by {
                    member_is_smaller(mx, i);
                }
                members_with_one_reading_have_one_sum(mx, my, JsonView::Object(mx).size());
            }
        }
        return false;
    }
    let mut i: usize = 0;
    while i < x.len()
        invariant
            0 <= i <= x@.len(),
            forall|j: int|
                0 <= j < i ==> find(my, (#[trigger] mx[j]).0) is Some && identity_of(
                    find(my, mx[j].0)->0,
                ) == identity_of(mx[j].1),
        decreases x@.len() - i,
    {
        proof {
            member_is_smaller(mx, i as int);
            key_is_found(mx, i as int);
            assert(mx[i as int].1.wf());
            assert(rx.dom().contains(mx[i as int].0));
            assert(rx[mx[i as int].0] == identity_of(mx[i as int].1));
        }
        let alike = match find_member(y, x[i].0.as_str()) {
            Some(other) => same(&x[i].1, other),
            None => false,
        };
        if !alike {
            return false;
        }
        i = i + 1;
    }
    proof {
        keys_of_both(mx, my);
        assert forall|key: Seq<char>| #[trigger] rx.dom().contains(key) implies rx[key]
            == ry[key] by {
            let j = found_stands_under_its_key(mx, key);
            key_is_found(mx, j);
        }
        assert(rx =~= ry);
    }
    true
}

/// Whether two arrays hold the same multiset: every member of one pairs with
/// a distinct member of the other. Candidates are found by hash, and confirmed.
#[verifier::loop_isolation(false)]
fn same_members(x: &Vec<Json>, y: &Vec<Json>) -> (r: bool)
    requires
        JsonView::Array(items_view(x@)).wf(),
        JsonView::Array(items_view(y@)).wf(),
    ensures
        r == (identities(items_view(x@)).to_multiset() == identities(
            items_view(y@),
        ).to_multiset()),
    decreases JsonView::Array(items_view(x@)).size(), 0nat,
{
    let ghost vx = items_view(x@);
    let ghost vy = items_view(y@);
    let ghost ix = identities(vx);
    let ghost iy = identities(vy);
    proof {
        identities_are_the_members(vx);
        identities_are_the_members(vy);
        to_multiset_len(ix);
        to_multiset_len(iy);
    }
    if x.len() != y.len() {
        return false;
    }
    let mut hashes: Vec<u64> = Vec::new();
    let mut left: Vec<usize> = Vec::new();
    let mut k: usize = 0;
    while k < y.len()
        invariant
            0 <= k <= y@.len(),
            left@ == Seq::new(k as nat, |j: int| j as usize),
            hashes@ == Seq::new(k as nat, |j: int| hash_of(vy[j])),
        decreases y@.len() - k,
    {
        left.push(k);
        hashes.push(element_hash(&y[k]));
        k = k + 1;
        proof {
            assert(left@ =~= Seq::new(k as nat, |j: int| j as usize));
            assert(hashes@ =~= Seq::new(k as nat, |j: int| hash_of(vy[j])));
        }
    }
    let mut i: usize = 0;
    proof {
        assert(ix.skip(0) =~= ix);
        assert(picked(iy, left@) =~= iy);
    }
    while i < x.len()
        invariant
            0 <= i <= x@.len(),
            left@.len() == x@.len() - i,
            forall|j: int| 0 <= j < left@.len() ==> (#[trigger] left@[j]) < y@.len(),
            (ix.to_multiset() == iy.to_multiset()) == (ix.skip(i as int).to_multiset() == picked(
                iy,
                left@,
            ).to_multiset()),
        decreases x@.len() - i,
    {
        let ghost rest = ix.skip(i as int);
        let ghost open = picked(iy, left@);
        let hash: u64 = element_hash(&x[i]);
        proof {
            item_is_smaller(vx, i as int);
            item_is_well_formed(vx, i as int);
        }
        let mut j: usize = 0;
        let mut found = false;
        while j < left.len() && !found
            invariant
                0 <= j <= left@.len(),
                !found ==> forall|m: int| 0 <= m < j ==> #[trigger] open[m] != ix[i as int],
                found ==> j < left@.len() && open[j as int] == ix[i as int],
            decreases left@.len() - j, (if found { 0int } else { 1int }),
        {
            let at: usize = left[j];
            proof {
                assert(open[j as int] == iy[at as int]);
                item_is_well_formed(vy, at as int);
                if ix[i as int] == iy[at as int] {
                    same_identity_same_hash(vx[i as int], vy[at as int]);
                }
            }
            if hashes[at] == hash && same(&x[i], &y[at]) {
                found = true;
            } else {
                j = j + 1;
            }
        }
        proof {
            assert(rest[0] == ix[i as int]);
            to_multiset_contains(rest, ix[i as int]);
            to_multiset_contains(open, ix[i as int]);
        }
        if !found {
            return false;
        }
        proof {
            one_pair_less(rest, open, j as int);
            assert(rest.remove(0) =~= ix.skip(i as int + 1));
            assert(open.remove(j as int) =~= picked(iy, left@.remove(j as int)));
        }
        left.remove(j);
        i = i + 1;
    }
    proof {
        assert(ix.skip(x@.len() as int) =~= Seq::<Identity>::empty());
        assert(picked(iy, left@) =~= Seq::<Identity>::empty());
    }
    true
}

/// Whether another value could be written differently and have this identity:
/// the value holds an array of two or more members, or a string that is read
/// as a document.
pub open spec fn applies(v: JsonView) -> bool
    decreases v.size(),
{
    match v {
        JsonView::String(s) => embedded(s) is Some,
        JsonView::Object(s) => if is_form(v) {
            false
        } else if is_json_body(v) {
            let d = v.member("json"@)->0;
            d.size() < v.size() && applies(d)
        } else {
            exists|i: int|
                0 <= i < s.len() && (#[trigger] s[i]).1.size() < v.size() && applies(s[i].1)
        },
        JsonView::Array(s) => {
            ||| s.len() > 1
            ||| exists|i: int|
                0 <= i < s.len() && (#[trigger] s[i]).size() < v.size() && applies(s[i])
        },
        _ => false,
    }
}

/// Whether another call could be written differently from `value` and still
/// have its identity.
#[verifier::loop_isolation(false)]
pub fn identity_applies(value: &Json) -> (r: bool)
    ensures
        r == applies(value@),
    decreases value@.size(),
{
    broadcast use group_json_view;

    match value {
        Json::String(text) => embedded_document(text.as_str()).is_some(),
        Json::Object(members) => {
            if is_form_request_body(value) {
                return false;
            }
            if is_json_request_body(value) {
                proof {
                    body_identity(value@);
                }
                return match value.get("json") {
                    Some(json) => identity_applies(json),
                    None => false,
                };
            }
            let ghost all = members_view(members@);
            let mut i: usize = 0;
            while i < members.len()
                invariant
                    0 <= i <= members@.len(),
                    forall|j: int| 0 <= j < i ==> !applies((#[trigger] all[j]).1),
                decreases members@.len() - i,
            {
                proof {
                    member_is_smaller(all, i as int);
                }
                if identity_applies(&members[i].1) {
                    proof {
                        assert(value@->Object_0[i as int].1.size() < value@.size());
                    }
                    return true;
                }
                i = i + 1;
            }
            false
        },
        Json::Array(items) => {
            if items.len() > 1 {
                return true;
            }
            let ghost all = items_view(items@);
            let mut i: usize = 0;
            while i < items.len()
                invariant
                    0 <= i <= items@.len(),
                    forall|j: int| 0 <= j < i ==> !applies(#[trigger] all[j]),
                decreases items@.len() - i,
            {
                proof {
                    item_is_smaller(all, i as int);
                }
                if identity_applies(&items[i]) {
                    proof {
                        assert(value@->Array_0[i as int].size() < value@.size());
                    }
                    return true;
                }
                i = i + 1;
            }
            false
        },
        _ => false,
    }
}

/// What the identity set aside to find two values the same call, at the path
/// of the value it read differently.
#[derive(Debug, PartialEq, Eq, PartialOrd, Ord)]
pub enum IdentityChange {
    /// An array holding the same members in another order.
    ArrayOrder(String),
    /// A string holding the same JSON document, written differently.
    DocumentText(String),
}

/// What an identity change says.
pub enum ChangeView {
    ArrayOrder(Seq<char>),
    DocumentText(Seq<char>),
}

impl View for IdentityChange {
    type V = ChangeView;

    open spec fn view(&self) -> ChangeView {
        match *self {
            IdentityChange::ArrayOrder(path) => ChangeView::ArrayOrder(path@),
            IdentityChange::DocumentText(path) => ChangeView::DocumentText(path@),
        }
    }
}

impl ChangeView {
    /// The path of the value read differently.
    pub open spec fn path(self) -> Seq<char> {
        match self {
            ChangeView::ArrayOrder(path) => path,
            ChangeView::DocumentText(path) => path,
        }
    }

    /// What changes are ordered by: reordered arrays first, each by path.
    pub open spec fn key(self) -> Seq<char> {
        match self {
            ChangeView::ArrayOrder(path) => "a"@ + path,
            ChangeView::DocumentText(path) => "d"@ + path,
        }
    }
}

impl IdentityChange {
    /// The path of the value read differently.
    pub fn path(&self) -> (r: &str)
        ensures
            r@ == self@.path(),
    {
        match self {
            IdentityChange::ArrayOrder(path) => path.as_str(),
            IdentityChange::DocumentText(path) => path.as_str(),
        }
    }

    fn key(&self) -> (r: String)
        ensures
            r@ == self@.key(),
    {
        match self {
            IdentityChange::ArrayOrder(path) => joined("a", path.as_str()),
            IdentityChange::DocumentText(path) => joined("d", path.as_str()),
        }
    }
}

impl Clone for IdentityChange {
    fn clone(&self) -> (r: IdentityChange)
        ensures
            r@ == self@,
    {
        match self {
            IdentityChange::ArrayOrder(path) => IdentityChange::ArrayOrder(path.clone()),
            IdentityChange::DocumentText(path) => IdentityChange::DocumentText(path.clone()),
        }
    }
}

/// What a list of changes says.
pub open spec fn changes(s: Seq<IdentityChange>) -> Seq<ChangeView> {
    s.map_values(|c: IdentityChange| c@)
}

/// The path of a member under a key.
pub open spec fn member_path(path: Seq<char>, key: Seq<char>) -> Seq<char> {
    path + "."@ + key
}

/// The path of an array's member.
pub open spec fn item_path(path: Seq<char>, index: nat) -> Seq<char> {
    path + "["@ + decimal(index) + "]"@
}

/// Where two values of one identity differ as written, in the order in which
/// the first is read.
pub open spec fn differences_at(r: JsonView, o: JsonView, path: Seq<char>) -> Seq<ChangeView>
    decreases r.size(), 1nat, 0nat,
{
    if json_eq(r, o) {
        Seq::empty()
    } else {
        match (r, o) {
            (JsonView::Object(rs), JsonView::Object(os)) => if is_form(r) {
                Seq::empty()
            } else if is_json_body(r) {
                let d = r.member("json"@)->0;
                match o.member("json"@) {
                    Some(e) => if d.size() < r.size() {
                        differences_at(d, e, member_path(path, "json"@))
                    } else {
                        Seq::empty()
                    },
                    None => Seq::empty(),
                }
            } else {
                member_differences(rs, o, path, rs.len())
            },
            (JsonView::Array(rs), JsonView::Array(os)) => {
                let n = if rs.len() < os.len() {
                    rs.len()
                } else {
                    os.len()
                };
                if forall|i: int| 0 <= i < n ==> identity_of(#[trigger] rs[i]) == identity_of(os[i]) {
                    item_differences(rs, os, path, n)
                } else {
                    seq![ChangeView::ArrayOrder(path)]
                }
            },
            (JsonView::String(_), JsonView::String(_)) => seq![ChangeView::DocumentText(path)],
            _ => Seq::empty(),
        }
    }
}

/// Where the first `n` members of an object differ from another's.
pub open spec fn member_differences(
    rs: Seq<(Seq<char>, JsonView)>,
    o: JsonView,
    path: Seq<char>,
    n: nat,
) -> Seq<ChangeView>
    decreases JsonView::Object(rs).size(), 0nat, n,
{
    if n == 0 {
        Seq::empty()
    } else {
        let (key, value) = rs[n - 1];
        member_differences(rs, o, path, (n - 1) as nat) + match o.member(key) {
            Some(other) => if value.size() < JsonView::Object(rs).size() {
                differences_at(value, other, member_path(path, key))
            } else {
                Seq::empty()
            },
            None => Seq::empty(),
        }
    }
}

/// Where the first `n` members of two arrays differ, each from its counterpart.
pub open spec fn item_differences(
    rs: Seq<JsonView>,
    os: Seq<JsonView>,
    path: Seq<char>,
    n: nat,
) -> Seq<ChangeView>
    decreases JsonView::Array(rs).size(), 0nat, n,
{
    if n == 0 {
        Seq::empty()
    } else {
        let value = rs[n - 1];
        item_differences(rs, os, path, (n - 1) as nat) + if value.size() < JsonView::Array(
            rs,
        ).size() {
            differences_at(value, os[n - 1], item_path(path, (n - 1) as nat))
        } else {
            Seq::empty()
        }
    }
}

/// Adds where two values of one identity differ as written.
#[verifier::loop_isolation(false)]
fn differences(recorded: &Json, observed: &Json, path: &str, out: &mut Vec<IdentityChange>)
    requires
        recorded@.wf(),
        observed@.wf(),
    ensures
        changes(final(out)@) == changes(old(out)@) + differences_at(
            recorded@,
            observed@,
            path@,
        ),
    decreases recorded@.size(),
{
    broadcast use group_json_view;

    let ghost before = changes(out@);
    if recorded.equals(observed) {
        proof {
            assert(changes(out@) =~= before + Seq::<ChangeView>::empty());
        }
        return;
    }
    match (recorded, observed) {
        (Json::Object(r), Json::Object(o)) => {
            if is_form_request_body(recorded) {
                proof {
                    assert(changes(out@) =~= before + Seq::<ChangeView>::empty());
                }
                return;
            }
            if is_json_request_body(recorded) {
                proof {
                    body_identity(recorded@);
                    assert(before + Seq::<ChangeView>::empty() =~= before);
                }
                if let (Some(a), Some(b)) = (recorded.get("json"), observed.get("json")) {
                    let dotted = joined(path, ".");
                    let inner = joined(dotted.as_str(), "json");
                    differences(a, b, inner.as_str(), out);
                }
                return;
            }
            let ghost rs = members_view(r@);
            let mut i: usize = 0;
            proof {
                assert(before + Seq::<ChangeView>::empty() =~= before);
            }
            while i < r.len()
                invariant
                    0 <= i <= r@.len(),
                    changes(out@) == before + member_differences(rs, observed@, path@, i as nat),
                decreases r@.len() - i,
            {
                let ghost done = member_differences(rs, observed@, path@, i as nat);
                proof {
                    member_is_smaller(rs, i as int);
                    member_is_well_formed(rs, i as int);
                    assert(rs[i as int] == (r@[i as int].0@, r@[i as int].1@));
                }
                if let Some(other) = observed.get(r[i].0.as_str()) {
                    let dotted = joined(path, ".");
                    let inner = joined(dotted.as_str(), r[i].0.as_str());
                    differences(&r[i].1, other, inner.as_str(), out);
                    proof {
                        let more = differences_at(
                            rs[i as int].1,
                            other@,
                            member_path(path@, rs[i as int].0),
                        );
                        assert(before + done + more =~= before + (done + more));
                    }
                } else {
                    proof {
                        assert(done + Seq::<ChangeView>::empty() =~= done);
                    }
                }
                i = i + 1;
            }
        },
        (Json::Array(r), Json::Array(o)) => {
            let ghost rs = items_view(r@);
            let ghost os = items_view(o@);
            let n: usize = if r.len() < o.len() {
                r.len()
            } else {
                o.len()
            };
            let mut i: usize = 0;
            while i < n
                invariant
                    0 <= i <= n <= r@.len(),
                    n <= o@.len(),
                    changes(out@) == before,
                    forall|j: int|
                        0 <= j < i ==> identity_of(#[trigger] rs[j]) == identity_of(os[j]),
                decreases n - i,
            {
                proof {
                    item_is_well_formed(rs, i as int);
                    item_is_well_formed(os, i as int);
                }
                if !same(&r[i], &o[i]) {
                    proof {
                        assert(identity_of(recorded@->Array_0[i as int]) != identity_of(
                            os[i as int],
                        ));
                    }
                    let ghost was = out@;
                    out.push(IdentityChange::ArrayOrder(path.to_owned()));
                    proof {
                        assert(changes(out@) =~= changes(was) + seq![
                            ChangeView::ArrayOrder(path@),
                        ]);
                    }
                    return;
                }
                i = i + 1;
            }
            let mut k: usize = 0;
            proof {
                assert(before + Seq::<ChangeView>::empty() =~= before);
            }
            while k < n
                invariant
                    0 <= k <= n <= r@.len(),
                    n <= o@.len(),
                    changes(out@) == before + item_differences(rs, os, path@, k as nat),
                decreases n - k,
            {
                let ghost done = item_differences(rs, os, path@, k as nat);
                proof {
                    item_is_smaller(rs, k as int);
                    item_is_well_formed(rs, k as int);
                    item_is_well_formed(os, k as int);
                }
                let open = joined(path, "[");
                let index = decimal_text(k as u64);
                let indexed = joined(open.as_str(), index.as_str());
                let inner = joined(indexed.as_str(), "]");
                differences(&r[k], &o[k], inner.as_str(), out);
                proof {
                    let more = differences_at(
                        rs[k as int],
                        os[k as int],
                        item_path(path@, k as nat),
                    );
                    assert(before + done + more =~= before + (done + more));
                }
                k = k + 1;
            }
        },
        (Json::String(_), Json::String(_)) => {
            let ghost was = out@;
            out.push(IdentityChange::DocumentText(path.to_owned()));
            proof {
                assert(changes(out@) =~= changes(was) + seq![ChangeView::DocumentText(path@)]);
            }
        },
        _ => {
            proof {
                assert(changes(out@) =~= before + Seq::<ChangeView>::empty());
            }
        },
    }
}

/// A list in the order of its changes' keys.
pub open spec fn sorted_changes(s: Seq<ChangeView>) -> Seq<ChangeView> {
    order_of(s.map_values(|c: ChangeView| c.key())).map_values(|p: usize| s[p as int])
}

/// Nothing where `recorded` and `observed` are different calls. Otherwise what
/// was read differently to find them the same, in order: empty when nothing
/// was.
#[verifier::loop_isolation(false)]
pub fn identity_differences(recorded: &Json, observed: &Json) -> (r: Option<Vec<IdentityChange>>)
    requires
        recorded@.wf(),
        observed@.wf(),
    ensures
        r is Some <==> identity_of(recorded@) == identity_of(observed@),
        r matches Some(found) ==> changes(found@) == sorted_changes(
            differences_at(recorded@, observed@, "$"@),
        ),
{
    if !same(recorded, observed) {
        return None;
    }
    let mut found: Vec<IdentityChange> = Vec::new();
    let ghost empty = changes(found@);
    differences(recorded, observed, "$", &mut found);
    let ghost all = changes(found@);
    proof {
        assert(empty + differences_at(recorded@, observed@, "$"@) =~= differences_at(
            recorded@,
            observed@,
            "$"@,
        ));
    }
    let mut keys: Vec<String> = Vec::new();
    let mut i: usize = 0;
    while i < found.len()
        invariant
            0 <= i <= found@.len(),
            texts(keys@) == all.map_values(|c: ChangeView| c.key()).take(i as int),
        decreases found@.len() - i,
    {
        let ghost was = keys@;
        keys.push(found[i].key());
        proof {
            assert(texts(keys@) =~= texts(was).push(all[i as int].key()));
            assert(texts(keys@) =~= all.map_values(|c: ChangeView| c.key()).take(i as int + 1));
        }
        i = i + 1;
    }
    proof {
        assert(texts(keys@) =~= all.map_values(|c: ChangeView| c.key()));
        assert(keys@.len() == texts(keys@).len());
    }
    let order = order_by_text(&keys);
    let mut out: Vec<IdentityChange> = Vec::new();
    let mut k: usize = 0;
    while k < order.len()
        invariant
            0 <= k <= order@.len(),
            changes(out@) == sorted_changes(all).take(k as int),
        decreases order@.len() - k,
    {
        let ghost was = out@;
        let at: usize = order[k];
        out.push(found[at].clone());
        proof {
            assert(changes(out@) =~= changes(was).push(all[at as int]));
            assert(changes(out@) =~= sorted_changes(all).take(k as int + 1));
        }
        k = k + 1;
    }
    proof {
        assert(sorted_changes(all).take(order@.len() as int) =~= sorted_changes(all));
    }
    Some(out)
}

proof fn identities_of_one_multiset(s: Seq<JsonView>, t: Seq<JsonView>)
    requires
        s.to_multiset() == t.to_multiset(),
    ensures
        identities(s).to_multiset() == identities(t).to_multiset(),
    decreases s.len(),
{
    to_multiset_len(s);
    to_multiset_len(t);
    if s.len() == 0 {
        assert(s =~= t);
    } else {
        to_multiset_contains(s, s[0]);
        to_multiset_contains(t, s[0]);
        let j = choose|j: int| 0 <= j < t.len() && t[j] == s[0];
        one_pair_less(s, t, j);
        identities_of_one_multiset(s.remove(0), t.remove(j));
        identities_are_the_members(s);
        identities_are_the_members(t);
        identities_are_the_members(s.remove(0));
        identities_are_the_members(t.remove(j));
        assert(identities(s).remove(0) =~= identities(s.remove(0)));
        assert(identities(t).remove(j) =~= identities(t.remove(j)));
        one_pair_less(identities(s), identities(t), j);
    }
}

/// The order of an array's members is never read: two arrays that hold the
/// same members, each as often, are one identity.
pub proof fn array_order_is_never_read(s: Seq<JsonView>, t: Seq<JsonView>)
    requires
        s.to_multiset() == t.to_multiset(),
    ensures
        identity_of(JsonView::Array(s)) == identity_of(JsonView::Array(t)),
{
    identities_of_one_multiset(s, t);
}

/// The order of an object's members is never read: two objects that hold the
/// same members are one identity.
pub proof fn object_order_is_never_read(
    s: Seq<(Seq<char>, JsonView)>,
    t: Seq<(Seq<char>, JsonView)>,
)
    requires
        distinct_keys(s),
        distinct_keys(t),
        s.to_multiset() == t.to_multiset(),
    ensures
        identity_of(JsonView::Object(s)) == identity_of(JsonView::Object(t)),
{
    assert forall|key: Seq<char>| find(s, key) == find(t, key) by {
        if find(s, key) is Some {
            let i = found_stands_under_its_key(s, key);
            to_multiset_contains(s, s[i]);
            to_multiset_contains(t, s[i]);
            let j = choose|j: int| 0 <= j < t.len() && t[j] == s[i];
            key_is_found(t, j);
        } else if find(t, key) is Some {
            let j = found_stands_under_its_key(t, key);
            to_multiset_contains(t, t[j]);
            to_multiset_contains(s, t[j]);
            let i = choose|i: int| 0 <= i < s.len() && s[i] == t[j];
            key_is_found(s, i);
        }
    }
    let a = JsonView::Object(s);
    let b = JsonView::Object(t);
    assert(a.member("kind"@) == b.member("kind"@));
    assert(a.member("json"@) == b.member("json"@));
    assert(a.member("text"@) == b.member("text"@));
    assert(a.member("raw_bytes"@) == b.member("raw_bytes"@));
    if !is_form(a) {
        if is_json_body(a) {
            body_identity(a);
            body_identity(b);
        } else {
            object_identity(s);
            object_identity(t);
            assert(member_identities(s) =~= member_identities(t));
        }
    }
}

/// Whether two sequences hold the same, each as often.
pub open spec fn rearranged<T>(s: Seq<T>, t: Seq<T>) -> bool {
    s.to_multiset() == t.to_multiset()
}

/// Whether two values are the same but for order: the members of arrays and of
/// objects stand in any order, at every depth, in documents that strings hold
/// too. A captured form body is read as it is, but for the order of its members.
pub open spec fn reordered(a: JsonView, b: JsonView) -> bool
    decreases a.size(), 0nat,
{
    match (a, b) {
        (JsonView::String(x), JsonView::String(y)) => x == y || match (embedded(x), embedded(y)) {
            (Some(d), Some(e)) => reordered(d, e),
            _ => false,
        },
        (JsonView::Array(s), JsonView::Array(t)) => exists|u: Seq<JsonView>| #[trigger]
            rearranged(u, t) && items_reordered(s, u),
        (JsonView::Object(s), JsonView::Object(t)) => exists|u: Seq<(Seq<char>, JsonView)>|
            #[trigger]
            rearranged(u, t) && (if is_form(a) || is_form(b) {
                u == s
            } else {
                members_reordered(s, u)
            }),
        _ => a == b,
    }
}

/// Whether the members of two arrays are, one by one, the same but for order.
pub open spec fn items_reordered(s: Seq<JsonView>, u: Seq<JsonView>) -> bool
    decreases items_size(s), 1nat,
{
    s.len() == u.len() && (s.len() == 0 || (reordered(s.last(), u.last()) && items_reordered(
        s.drop_last(),
        u.drop_last(),
    )))
}

/// Whether the members of two objects stand, one by one, under the same keys and
/// are the same but for order.
pub open spec fn members_reordered(
    s: Seq<(Seq<char>, JsonView)>,
    u: Seq<(Seq<char>, JsonView)>,
) -> bool
    decreases members_size(s), 1nat,
{
    s.len() == u.len() && (s.len() == 0 || (s.last().0 == u.last().0 && reordered(
        s.last().1,
        u.last().1,
    ) && members_reordered(s.drop_last(), u.drop_last())))
}

proof fn items_of_one_order(s: Seq<JsonView>, u: Seq<JsonView>)
    requires
        items_reordered(s, u),
        forall|i: int| 0 <= i < s.len() ==> (#[trigger] s[i]).wf(),
        forall|i: int| 0 <= i < u.len() ==> (#[trigger] u[i]).wf(),
    ensures
        identities(s) == identities(u),
    decreases items_size(s), 1nat,
{
    if s.len() > 0 {
        let (front, behind) = (s.drop_last(), u.drop_last());
        assert forall|i: int| 0 <= i < front.len() implies (#[trigger] front[i]).wf() by {
            assert(s[i].wf());
        }
        assert forall|i: int| 0 <= i < behind.len() implies (#[trigger] behind[i]).wf() by {
            assert(u[i].wf());
        }
        assert(s[s.len() - 1].wf() && u[u.len() - 1].wf());
        no_order_is_ever_read(s.last(), u.last());
        items_of_one_order(front, behind);
    }
}

proof fn members_of_one_order(s: Seq<(Seq<char>, JsonView)>, u: Seq<(Seq<char>, JsonView)>)
    requires
        members_reordered(s, u),
        forall|i: int| 0 <= i < s.len() ==> (#[trigger] s[i]).1.wf(),
        forall|i: int| 0 <= i < u.len() ==> (#[trigger] u[i]).1.wf(),
    ensures
        s.len() == u.len(),
        forall|i: int| #![trigger s[i]]#![trigger u[i]]
            0 <= i < s.len() ==> s[i].0 == u[i].0 && reordered(s[i].1, u[i].1) && identity_of(
                s[i].1,
            ) == identity_of(u[i].1),
    decreases members_size(s), 1nat,
{
    if s.len() > 0 {
        let (front, behind) = (s.drop_last(), u.drop_last());
        assert forall|i: int| 0 <= i < front.len() implies (#[trigger] front[i]).1.wf() by {
            assert(s[i].1.wf());
        }
        assert forall|i: int| 0 <= i < behind.len() implies (#[trigger] behind[i]).1.wf() by {
            assert(u[i].1.wf());
        }
        assert(s[s.len() - 1].1.wf() && u[u.len() - 1].1.wf());
        no_order_is_ever_read(s.last().1, u.last().1);
        members_of_one_order(front, behind);
        assert forall|i: int| #![trigger s[i]]#![trigger u[i]]
            0 <= i < s.len() implies s[i].0 == u[i].0 && reordered(s[i].1, u[i].1) && identity_of(
            s[i].1,
        ) == identity_of(u[i].1) by {
            if i < s.len() - 1 {
                assert(s[i] == front[i] && u[i] == behind[i]);
            }
        }
    }
}

proof fn kinds_are_no_documents()
    ensures
        embedded(JSON_REQUEST_BODY_KIND@) is None,
{
    reveal_strlit("JsonRequestBody");
    let kind = JSON_REQUEST_BODY_KIND@;
    assert(kind[0] == 'J' && kind.last() == 'y');
    assert(trimmed(kind) == kind);
}

/// Whether two objects, member by member the same but for order, are captured
/// JSON bodies together.
proof fn json_bodies_of_one_order(s: Seq<(Seq<char>, JsonView)>, u: Seq<(Seq<char>, JsonView)>)
    requires
        distinct_keys(s),
        distinct_keys(u),
        s.len() == u.len(),
        forall|i: int| #![trigger s[i]]#![trigger u[i]]
            0 <= i < s.len() ==> s[i].0 == u[i].0 && reordered(s[i].1, u[i].1),
    ensures
        is_json_body(JsonView::Object(s)) == is_json_body(JsonView::Object(u)),
        forall|key: Seq<char>| #![trigger find(s, key)]#![trigger find(u, key)]
            match (find(s, key), find(u, key)) {
                (Some(a), Some(b)) => exists|i: int|
                    0 <= i < s.len() && (#[trigger] s[i]).1 == a && u[i].1 == b && s[i].0 == key,
                (None, None) => true,
                _ => false,
            },
{
    assert forall|key: Seq<char>| #![trigger find(s, key)]#![trigger find(u, key)]
        match (find(s, key), find(u, key)) {
            (Some(a), Some(b)) => exists|i: int|
                0 <= i < s.len() && (#[trigger] s[i]).1 == a && u[i].1 == b && s[i].0 == key,
            (None, None) => true,
            _ => false,
        } by {
        if find(s, key) is Some {
            let i = found_stands_under_its_key(s, key);
            assert(u[i].0 == key);
            key_is_found(u, i);
        } else if find(u, key) is Some {
            let i = found_stands_under_its_key(u, key);
            assert(s[i].0 == key);
            key_is_found(s, i);
        }
    }
    kinds_are_no_documents();
    let a = JsonView::Object(s);
    let b = JsonView::Object(u);
    assert(a.member("kind"@) == find(s, "kind"@) && b.member("kind"@) == find(u, "kind"@));
    assert(a.member("json"@) == find(s, "json"@) && b.member("json"@) == find(u, "json"@));
}

/// No order is ever read: two values that are the same but for order, at every
/// depth, are one identity and have one hash.
pub proof fn no_order_is_ever_read(a: JsonView, b: JsonView)
    requires
        a.wf(),
        b.wf(),
        reordered(a, b),
    ensures
        identity_of(a) == identity_of(b),
        hash_of(a) == hash_of(b),
    decreases a.size(), 0nat,
{
    match (a, b) {
        (JsonView::String(x), JsonView::String(y)) => {
            if x != y {
                no_order_is_ever_read(embedded(x)->0, embedded(y)->0);
            }
        },
        (JsonView::Array(s), JsonView::Array(t)) => {
            let u = choose|u: Seq<JsonView>| #[trigger] rearranged(u, t) && items_reordered(s, u);
            assert forall|i: int| 0 <= i < u.len() implies (#[trigger] u[i]).wf() by {
                to_multiset_contains(u, u[i]);
                to_multiset_contains(t, u[i]);
                let j = choose|j: int| 0 <= j < t.len() && t[j] == u[i];
                item_is_well_formed(t, j);
            }
            items_of_one_order(s, u);
            array_order_is_never_read(u, t);
        },
        (JsonView::Object(s), JsonView::Object(t)) => {
            let u = choose|u: Seq<(Seq<char>, JsonView)>| #[trigger]
                rearranged(u, t) && (if is_form(a) || is_form(b) {
                    u == s
                } else {
                    members_reordered(s, u)
                });
            if !(is_form(a) || is_form(b)) {
                objects_of_one_order(s, t, u);
            } else {
                object_order_is_never_read(u, t);
            }
        },
        _ => {},
    }
    same_identity_same_hash(a, b);
}

proof fn objects_of_one_order(
    s: Seq<(Seq<char>, JsonView)>,
    t: Seq<(Seq<char>, JsonView)>,
    u: Seq<(Seq<char>, JsonView)>,
)
    requires
        JsonView::Object(s).wf(),
        JsonView::Object(t).wf(),
        !is_form(JsonView::Object(s)),
        !is_form(JsonView::Object(t)),
        rearranged(u, t),
        members_reordered(s, u),
    ensures
        identity_of(JsonView::Object(s)) == identity_of(JsonView::Object(t)),
    decreases members_size(s), 2nat,
{
    assert forall|i: int| 0 <= i < u.len() implies (#[trigger] u[i]).1.wf() by {
        to_multiset_contains(u, u[i]);
        to_multiset_contains(t, u[i]);
        let j = choose|j: int| 0 <= j < t.len() && t[j] == u[i];
        member_is_well_formed(t, j);
    }
    members_of_one_order(s, u);
    assert(distinct_keys(u)) by {
        assert forall|i: int, j: int| 0 <= i < j < u.len() implies (#[trigger] u[i]).0 != (
        #[trigger] u[j]).0 by {
            assert(s[i].0 != s[j].0);
        }
    }
    object_order_is_never_read(u, t);
    json_bodies_of_one_order(s, u);
    let (a, b) = (JsonView::Object(s), JsonView::Object(u));
    if is_json_body(a) {
        body_identity(a);
        body_identity(b);
        assert(a.member("json"@) == find(s, "json"@) && b.member("json"@) == find(u, "json"@));
    } else {
        object_identity(s);
        object_identity(u);
        assert forall|key: Seq<char>| #[trigger] member_identities(s).dom().contains(
            key,
        ) implies member_identities(s)[key] == member_identities(u)[key] by {
            assert(find(s, key) is Some);
        }
        assert(member_identities(s) =~= member_identities(u));
    }
}

/// The multiplicity of an array's members counts: arrays of one identity are
/// equally long.
pub proof fn multiplicity_counts(s: Seq<JsonView>, t: Seq<JsonView>)
    requires
        identity_of(JsonView::Array(s)) == identity_of(JsonView::Array(t)),
    ensures
        s.len() == t.len(),
        forall|m: Identity|
            identities(s).to_multiset().count(m) == identities(t).to_multiset().count(m),
{
    identities_are_the_members(s);
    identities_are_the_members(t);
    to_multiset_len(identities(s));
    to_multiset_len(identities(t));
}

/// A value is the same call as itself, two values are the same call whichever
/// is asked first, and arrays of different lengths are never the same call.
pub proof fn sameness_is_mutual(a: JsonView, b: JsonView)
    ensures
        reordered(a, a),
        identity_of(a) == identity_of(a),
        (identity_of(a) == identity_of(b)) == (identity_of(b) == identity_of(a)),
        a is Array && b is Array && a->Array_0.len() != b->Array_0.len() ==> identity_of(a)
            != identity_of(b),
    decreases a.size(), 0nat,
{
    match a {
        JsonView::Array(s) => {
            items_are_themselves(s);
            assert(rearranged(s, s));
        },
        JsonView::Object(s) => {
            members_are_themselves(s);
            assert(rearranged(s, s));
        },
        _ => {},
    }
    if a is Array && b is Array && identity_of(a) == identity_of(b) {
        multiplicity_counts(a->Array_0, b->Array_0);
    }
}

proof fn items_are_themselves(s: Seq<JsonView>)
    ensures
        items_reordered(s, s),
    decreases items_size(s), 1nat,
{
    if s.len() > 0 {
        sameness_is_mutual(s.last(), s.last());
        items_are_themselves(s.drop_last());
    }
}

proof fn members_are_themselves(s: Seq<(Seq<char>, JsonView)>)
    ensures
        members_reordered(s, s),
    decreases members_size(s), 1nat,
{
    if s.len() > 0 {
        sameness_is_mutual(s.last().1, s.last().1);
        members_are_themselves(s.drop_last());
    }
}

/// A document in a string is never the same call as the document itself.
pub proof fn text_is_no_object(s: Seq<char>, v: JsonView)
    requires
        !(v is String),
    ensures
        identity_of(JsonView::String(s)) != identity_of(v),
{
}

/// Spreading the bits of two numbers keeps them apart.
pub proof fn finalising_keeps_apart(x: u64, y: u64)
    requires
        finalised(x) == finalised(y),
    ensures
        x == y,
{
    reveal(finalised);
    let a = x.wrapping_add(0x9e37_79b9_7f4a_7c15);
    let b = (a ^ (a >> 30)).wrapping_mul(0xbf58_476d_1ce4_e5b9);
    let c = (b ^ (b >> 27)).wrapping_mul(0x94d0_49bb_1331_11eb);
    let e = y.wrapping_add(0x9e37_79b9_7f4a_7c15);
    let f = (e ^ (e >> 30)).wrapping_mul(0xbf58_476d_1ce4_e5b9);
    let g = (f ^ (f >> 27)).wrapping_mul(0x94d0_49bb_1331_11eb);
    assert(c == g) by (bit_vector)
        requires
            c ^ (c >> 31) == g ^ (g >> 31),
    ;
    products_stay_apart(
        b ^ (b >> 27),
        f ^ (f >> 27),
        0x94d0_49bb_1331_11eb,
        0x3196_42b2_d24d_8ec3,
    );
    assert(b == f) by (bit_vector)
        requires
            b ^ (b >> 27) == f ^ (f >> 27),
    ;
    products_stay_apart(
        a ^ (a >> 30),
        e ^ (e >> 30),
        0xbf58_476d_1ce4_e5b9,
        0x96de_1b17_3f11_9089,
    );
    assert(a == e) by (bit_vector)
        requires
            a ^ (a >> 30) == e ^ (e >> 30),
    ;
}

/// A tag keeps different hashes apart.
pub proof fn tagging_keeps_apart(tag: u64, a: u64, b: u64)
    requires
        tagged(tag, a) == tagged(tag, b),
    ensures
        a == b,
{
    reveal(rotated);
    finalising_keeps_apart(tag ^ rotated(a, 17), tag ^ rotated(b, 17));
    assert(a == b) by (bit_vector)
        requires
            tag ^ ((a << 17) | (a >> 47)) == tag ^ ((b << 17) | (b >> 47)),
    ;
}

proof fn one_hash_is_told_apart(tag: u64, s: Seq<u64>, t: Seq<u64>, i: int)
    requires
        s.len() == t.len(),
        0 <= i < s.len(),
        forall|j: int| 0 <= j < s.len() && j != i ==> s[j] == t[j],
        s[i] != t[i],
    ensures
        unordered(tag, s) != unordered(tag, t),
{
    total_without_one(s, i);
    total_without_one(t, i);
    assert(s.remove(i) =~= t.remove(i));
    if finalised(s[i]) == finalised(t[i]) {
        finalising_keeps_apart(s[i], t[i]);
    }
    let m: int = 0x1_0000_0000_0000_0000;
    assert(total(s) % m != total(t) % m);
    let x = (total(s) % m) as u64;
    let y = (total(t) % m) as u64;
    let n = s.len() as u64;
    if unordered(tag, s) == unordered(tag, t) {
        tagging_keeps_apart(tag, finalised(x ^ n), finalised(y ^ n));
        finalising_keeps_apart(x ^ n, y ^ n);
        assert(x == y) by (bit_vector)
            requires
                x ^ n == y ^ n,
        ;
    }
}

/// The hash of a captured JSON body is that of its document, set apart by the
/// tag of bodies: two bodies have one hash exactly when their documents have.
pub proof fn body_hashes_are_of_their_documents(a: JsonView, b: JsonView, c: JsonView, d: JsonView)
    requires
        a.member("kind"@) == Some(JsonView::String("JsonRequestBody"@)),
        b.member("kind"@) == Some(JsonView::String("JsonRequestBody"@)),
        a.member("json"@) == Some(c),
        b.member("json"@) == Some(d),
        !(c is Null),
        !(d is Null),
    ensures
        hash_of(a) == tagged(BODY_TAG, hash_of(c)),
        hash_of(a) == hash_of(b) <==> hash_of(c) == hash_of(d),
        identity_of(a) == identity_of(b) <==> identity_of(c) == identity_of(d),
{
    kinds_are_told_apart();
    body_identity(a);
    body_identity(b);
    if hash_of(a) == hash_of(b) {
        tagging_keeps_apart(BODY_TAG, hash_of(c), hash_of(d));
    }
}

proof fn kinds_are_told_apart()
    ensures
        JSON_REQUEST_BODY_KIND@ != FORM_URLENCODED_REQUEST_BODY_KIND@,
{
    reveal_strlit("JsonRequestBody");
    reveal_strlit("FormUrlEncodedRequestBody");
    assert(JSON_REQUEST_BODY_KIND@[0] == 'J');
    assert(FORM_URLENCODED_REQUEST_BODY_KIND@[0] == 'F');
}

/// Strings that hold documents have one hash exactly when the documents have,
/// and plain strings and numbers exactly when the FNV-1a hashes of their texts
/// are one; the two truth values have different hashes, and null a third.
pub proof fn plain_values_are_told_apart(s: Seq<char>, t: Seq<char>)
    ensures
        hash_of(JsonView::Bool(true)) != hash_of(JsonView::Bool(false)),
        hash_of(JsonView::Bool(true)) != hash_of(JsonView::Null),
        hash_of(JsonView::Bool(false)) != hash_of(JsonView::Null),
        hash_of(JsonView::Number(s)) == hash_of(JsonView::Number(t)) <==> fnv_text(
            FNV_OFFSET_BASIS,
            s,
        ) == fnv_text(FNV_OFFSET_BASIS, t),
        embedded(s) is None && embedded(t) is None ==> (hash_of(JsonView::String(s)) == hash_of(
            JsonView::String(t),
        ) <==> fnv_text(FNV_OFFSET_BASIS, s) == fnv_text(FNV_OFFSET_BASIS, t)),
        embedded(s) is Some && embedded(t) is Some ==> (hash_of(JsonView::String(s)) == hash_of(
            JsonView::String(t),
        ) <==> hash_of(embedded(s)->0) == hash_of(embedded(t)->0)),
{
    let x = fnv_text(FNV_OFFSET_BASIS, s);
    let y = fnv_text(FNV_OFFSET_BASIS, t);
    if tagged(NUMBER_TAG, x) == tagged(NUMBER_TAG, y) {
        tagging_keeps_apart(NUMBER_TAG, x, y);
    }
    if tagged(TEXT_TAG, x) == tagged(TEXT_TAG, y) {
        tagging_keeps_apart(TEXT_TAG, x, y);
    }
    if embedded(s) is Some && embedded(t) is Some && hash_of(JsonView::String(s)) == hash_of(
        JsonView::String(t),
    ) {
        tagging_keeps_apart(DOCUMENT_TAG, hash_of(embedded(s)->0), hash_of(embedded(t)->0));
    }
    let yes = BOOL_TAG ^ 1u64;
    let no = BOOL_TAG ^ 0u64;
    assert(0x626f_6f6cu64 ^ 1 != 0x626f_6f6cu64 ^ 0 && 0x626f_6f6cu64 ^ 1 != 0x6e75_6c6cu64
        && 0x626f_6f6cu64 ^ 0 != 0x6e75_6c6cu64) by (bit_vector);
    if finalised(yes) == finalised(no) {
        finalising_keeps_apart(yes, no);
    }
    if finalised(yes) == finalised(NULL_TAG) {
        finalising_keeps_apart(yes, NULL_TAG);
    }
    if finalised(no) == finalised(NULL_TAG) {
        finalising_keeps_apart(no, NULL_TAG);
    }
}

/// Every member of an array counts: arrays that differ in one member, at any
/// place, have one hash exactly when those two members have.
pub proof fn one_changed_item_changes_the_hash(s: Seq<JsonView>, i: int, v: JsonView)
    requires
        0 <= i < s.len(),
    ensures
        hash_of(JsonView::Array(s)) == hash_of(JsonView::Array(s.update(i, v))) <==> hash_of(s[i])
            == hash_of(v),
{
    let t = s.update(i, v);
    item_hashes_are_of_the_members(s);
    item_hashes_are_of_the_members(t);
    if hash_of(s[i]) != hash_of(v) {
        one_hash_is_told_apart(ARRAY_TAG, item_hashes(s), item_hashes(t), i);
    } else {
        assert(item_hashes(s) =~= item_hashes(t));
    }
}

/// Every member of an object counts, by its value and by its key: objects, no
/// captured bodies, that differ in the value of one member have one hash exactly
/// when the values have, and those that differ in one key exactly when the
/// FNV-1a hashes of the keys are one.
pub proof fn one_changed_member_changes_the_hash(
    s: Seq<(Seq<char>, JsonView)>,
    i: int,
    key: Seq<char>,
    v: JsonView,
)
    requires
        0 <= i < s.len(),
        ({
            let o = JsonView::Object(s);
            let value = JsonView::Object(s.update(i, (s[i].0, v)));
            let name = JsonView::Object(s.update(i, (key, s[i].1)));
            &&& !is_form(o) && !is_json_body(o)
            &&& !is_form(value) && !is_json_body(value)
            &&& !is_form(name) && !is_json_body(name)
        }),
    ensures
        hash_of(JsonView::Object(s)) == hash_of(JsonView::Object(s.update(i, (s[i].0, v))))
            <==> hash_of(s[i].1) == hash_of(v),
        hash_of(JsonView::Object(s)) == hash_of(JsonView::Object(s.update(i, (key, s[i].1))))
            <==> fnv_text(FNV_OFFSET_BASIS, s[i].0) == fnv_text(FNV_OFFSET_BASIS, key),
{
    reveal(rotated);
    let value = s.update(i, (s[i].0, v));
    let name = s.update(i, (key, s[i].1));
    member_hashes_are_of_the_members(s);
    member_hashes_are_of_the_members(value);
    member_hashes_are_of_the_members(name);
    let k = fnv_text(FNV_OFFSET_BASIS, s[i].0);
    let l = fnv_text(FNV_OFFSET_BASIS, key);
    let a = hash_of(s[i].1);
    let b = hash_of(v);
    if a == b {
        assert(member_hashes(s) =~= member_hashes(value));
    } else {
        if member_hash(s[i].0, a) == member_hash(s[i].0, b) {
            assert(a == b) by (bit_vector)
                requires
                    k ^ ((a << 29) | (a >> 35)) == k ^ ((b << 29) | (b >> 35)),
            ;
        }
        one_hash_is_told_apart(OBJECT_TAG, member_hashes(s), member_hashes(value), i);
    }
    if k == l {
        assert(member_hashes(s) =~= member_hashes(name));
    } else {
        let r = rotated(a, 29);
        if member_hash(s[i].0, a) == member_hash(key, a) {
            assert(k == l) by (bit_vector)
                requires
                    k ^ r == l ^ r,
            ;
        }
        one_hash_is_told_apart(OBJECT_TAG, member_hashes(s), member_hashes(name), i);
    }
}

/// Every field of a form body counts: form bodies whose texts split at the
/// ampersands into fields that differ at one place have one hash exactly when
/// the FNV-1a hashes of those two fields are one.
pub proof fn one_changed_field_changes_the_hash(
    a: JsonView,
    b: JsonView,
    x: Seq<char>,
    y: Seq<char>,
    i: int,
)
    requires
        a.member("kind"@) == Some(JsonView::String("FormUrlEncodedRequestBody"@)),
        b.member("kind"@) == Some(JsonView::String("FormUrlEncodedRequestBody"@)),
        a.member("text"@) == Some(JsonView::String(x)),
        b.member("text"@) == Some(JsonView::String(y)),
        split_on(x, '&').len() == split_on(y, '&').len(),
        0 <= i < split_on(x, '&').len(),
        forall|j: int|
            0 <= j < split_on(x, '&').len() && j != i ==> split_on(x, '&')[j] == split_on(
                y,
                '&',
            )[j],
    ensures
        hash_of(a) == hash_of(b) <==> fnv_text(FNV_OFFSET_BASIS, split_on(x, '&')[i]) == fnv_text(
            FNV_OFFSET_BASIS,
            split_on(y, '&')[i],
        ),
        identity_of(a) == identity_of(b) <==> split_on(x, '&')[i] == split_on(y, '&')[i],
{
    let s = split_on(x, '&');
    let t = split_on(y, '&');
    assert(is_form(a) && is_form(b));
    assert(form_fields(a) == s && form_fields(b) == t);
    let h = text_hashes(s);
    let g = text_hashes(t);
    if h[i] != g[i] {
        one_hash_is_told_apart(FORM_TAG, h, g, i);
    } else {
        assert(h =~= g);
    }
    if s[i] == t[i] {
        assert(s =~= t);
    } else if s.to_multiset() == t.to_multiset() {
        to_multiset_remove(s, i);
        to_multiset_remove(t, i);
        assert(s.remove(i) =~= t.remove(i));
        to_multiset_contains(s, s[i]);
        to_multiset_contains(t, t[i]);
        assert(s.to_multiset().contains(s[i]));
        assert(t.to_multiset().contains(t[i]));
        assert(s.to_multiset().remove(s[i]).count(s[i]) == s.to_multiset().count(s[i]) - 1);
        assert(t.to_multiset().remove(t[i]).count(s[i]) == t.to_multiset().count(s[i]));
    }
}

/// Null, truth values and numbers are the same call as nothing but themselves, a
/// string without a document as no other such string, and a string with one as
/// the strings whose document is the same call.
pub proof fn plain_values_are_themselves(a: JsonView, b: JsonView)
    ensures
        a is Null || a is Bool || a is Number ==> (identity_of(a) == identity_of(b) <==> a == b),
        a matches JsonView::String(s) ==> b matches JsonView::String(t) ==> {
            &&& embedded(s) is None ==> (identity_of(a) == identity_of(b) <==> s == t)
            &&& embedded(s) is Some && embedded(t) is Some ==> (identity_of(a) == identity_of(b)
                <==> identity_of(embedded(s)->0) == identity_of(embedded(t)->0))
            &&& embedded(s) is Some && embedded(t) is None ==> identity_of(a) != identity_of(b)
        },
{
    if b is Object && !is_form(b) && is_json_body(b) {
        body_identity(b);
    }
}

/// Arrays that differ in one member alone are the same call exactly when those
/// two members are, wherever they stand.
pub proof fn one_changed_item_is_another_call(s: Seq<JsonView>, i: int, v: JsonView)
    requires
        0 <= i < s.len(),
    ensures
        identity_of(JsonView::Array(s)) == identity_of(JsonView::Array(s.update(i, v)))
            <==> identity_of(s[i]) == identity_of(v),
{
    let t = s.update(i, v);
    identities_are_the_members(s);
    identities_are_the_members(t);
    let a = identities(s);
    let b = identities(t);
    if a[i] == b[i] {
        assert(a =~= b);
    } else if a.to_multiset() == b.to_multiset() {
        to_multiset_remove(a, i);
        to_multiset_remove(b, i);
        assert(a.remove(i) =~= b.remove(i));
        to_multiset_contains(a, a[i]);
        to_multiset_contains(b, b[i]);
        assert(a.to_multiset().contains(a[i]));
        assert(b.to_multiset().contains(b[i]));
        assert(a.to_multiset().remove(a[i]).count(a[i]) == a.to_multiset().count(a[i]) - 1);
        assert(b.to_multiset().remove(b[i]).count(a[i]) == b.to_multiset().count(a[i]));
    }
}

/// Objects that are no captured bodies are the same call exactly when they hold
/// the same keys, and under each of them the same call.
pub proof fn objects_are_read_by_key(s: Seq<(Seq<char>, JsonView)>, t: Seq<(Seq<char>, JsonView)>)
    requires
        !is_form(JsonView::Object(s)),
        !is_json_body(JsonView::Object(s)),
        !is_form(JsonView::Object(t)),
        !is_json_body(JsonView::Object(t)),
    ensures
        identity_of(JsonView::Object(s)) == identity_of(JsonView::Object(t)) <==> forall|
            key: Seq<char>,
        |
            {
                &&& #[trigger] find(s, key) is Some <==> find(t, key) is Some
                &&& find(s, key) is Some ==> identity_of(find(s, key)->0) == identity_of(
                    find(t, key)->0,
                )
            },
{
    object_identity(s);
    object_identity(t);
    let a = member_identities(s);
    let b = member_identities(t);
    if a == b {
        assert forall|key: Seq<char>|
            {
                &&& #[trigger] find(s, key) is Some <==> find(t, key) is Some
                &&& find(s, key) is Some ==> identity_of(find(s, key)->0) == identity_of(
                    find(t, key)->0,
                )
            } by {
            assert(a.dom().contains(key) <==> b.dom().contains(key));
            if find(s, key) is Some {
                assert(a[key] == b[key]);
            }
        }
    }
    if forall|key: Seq<char>|
        {
            &&& #[trigger] find(s, key) is Some <==> find(t, key) is Some
            &&& find(s, key) is Some ==> identity_of(find(s, key)->0) == identity_of(
                find(t, key)->0,
            )
        } {
        assert(a =~= b);
    }
}

/// Two values that are equal as written are found to differ nowhere.
pub proof fn equal_values_differ_nowhere(a: JsonView, b: JsonView, path: Seq<char>)
    requires
        json_eq(a, b),
    ensures
        differences_at(a, b, path).len() == 0,
{
}

proof fn plain_members_differ_nowhere(
    x: Seq<(Seq<char>, JsonView)>,
    y: Seq<(Seq<char>, JsonView)>,
    path: Seq<char>,
    n: nat,
)
    requires
        JsonView::Object(x).wf(),
        JsonView::Object(y).wf(),
        forall|i: int| 0 <= i < x.len() ==> !applies((#[trigger] x[i]).1),
        member_identities(x) == member_identities(y),
        n <= x.len(),
    ensures
        member_differences(x, JsonView::Object(y), path, n).len() == 0,
    decreases JsonView::Object(x).size(), 0nat, n,
{
    if n > 0 {
        plain_members_differ_nowhere(x, y, path, (n - 1) as nat);
        key_is_found(x, n - 1);
        let key = x[n - 1].0;
        assert(member_identities(x).dom().contains(key));
        assert(member_identities(y).dom().contains(key));
        assert(distinct_keys(x));
        assert(member_identities(x)[key] == identity_of(x[n - 1].1));
        assert(member_identities(y)[key] == identity_of(find(y, key)->0));
        let j = found_stands_under_its_key(y, key);
        member_is_smaller(x, n - 1);
        member_is_well_formed(x, n - 1);
        member_is_well_formed(y, j);
        plain_calls_differ_nowhere(x[n - 1].1, y[j].1, member_path(path, key));
    }
}

/// Where a call could not be written another way and keep its identity, no call
/// of one identity with it is found to differ from it.
pub proof fn plain_calls_differ_nowhere(a: JsonView, b: JsonView, path: Seq<char>)
    requires
        a.wf(),
        b.wf(),
        !applies(a),
        identity_of(a) == identity_of(b),
    ensures
        differences_at(a, b, path).len() == 0,
    decreases a.size(), 1nat, 0nat,
{
    if b is Object && !is_form(b) && is_json_body(b) {
        body_identity(b);
    }
    match a {
        JsonView::Array(x) => {
            let y = b->Array_0;
            multiplicity_counts(x, y);
            identities_are_the_members(x);
            identities_are_the_members(y);
            if x.len() == 1 {
                assert(identities(x)[0] == identity_of(x[0]));
                to_multiset_contains(identities(x), identity_of(x[0]));
                to_multiset_contains(identities(y), identity_of(x[0]));
                let j = choose|j: int| 0 <= j < y.len() && identities(y)[j] == identity_of(x[0]);
                assert(identities(y)[j] == identity_of(y[0]));
                item_is_smaller(x, 0);
                item_is_well_formed(x, 0);
                item_is_well_formed(y, 0);
                assert(!applies(a->Array_0[0]));
                plain_calls_differ_nowhere(x[0], y[0], item_path(path, 0));
                assert(item_differences(x, y, path, 0).len() == 0);
                assert(item_differences(x, y, path, 1).len() == 0);
                assert(forall|i: int|
                    0 <= i < 1 ==> identity_of(#[trigger] a->Array_0[i]) == identity_of(y[i]));
            } else {
                assert(x =~= y);
                json_eq_is_reflexive(a);
            }
        },
        JsonView::Object(x) => {
            let y = b->Object_0;
            if !is_form(a) {
                if is_json_body(a) {
                    body_identity(a);
                    plain_calls_differ_nowhere(
                        a.member("json"@)->0,
                        b.member("json"@)->0,
                        member_path(path, "json"@),
                    );
                } else {
                    object_identity(x);
                    object_identity(y);
                    assert forall|i: int| 0 <= i < x.len() implies !applies((#[trigger] x[i]).1) by {
                        member_is_smaller(x, i);
                        assert(!applies(a->Object_0[i].1));
                    }
                    plain_members_differ_nowhere(x, y, path, x.len());
                }
            }
        },
        _ => {},
    }
}

/// Whether a value holds no captured body.
pub open spec fn holds_no_body(v: JsonView) -> bool
    decreases v,
{
    match v {
        JsonView::Array(s) => forall|i: int| 0 <= i < s.len() ==> holds_no_body(#[trigger] s[i]),
        JsonView::Object(s) => {
            &&& !is_form(v)
            &&& !is_json_body(v)
            &&& forall|i: int| 0 <= i < s.len() ==> holds_no_body((#[trigger] s[i]).1)
        },
        _ => true,
    }
}

proof fn differences_of_a_member(
    rs: Seq<(Seq<char>, JsonView)>,
    o: JsonView,
    path: Seq<char>,
    n: nat,
    i: int,
    c: ChangeView,
)
    requires
        n <= rs.len(),
        0 <= i < n,
        o.member(rs[i].0) is Some,
        differences_at(rs[i].1, o.member(rs[i].0)->0, member_path(path, rs[i].0)).contains(c),
    ensures
        member_differences(rs, o, path, n).contains(c),
    decreases n,
{
    member_is_smaller(rs, n - 1);
    let before = member_differences(rs, o, path, (n - 1) as nat);
    let all = member_differences(rs, o, path, n);
    if i == n - 1 {
        let own = differences_at(rs[i].1, o.member(rs[i].0)->0, member_path(path, rs[i].0));
        let k = choose|k: int| 0 <= k < own.len() && own[k] == c;
        assert(all[before.len() + k] == c);
    } else {
        differences_of_a_member(rs, o, path, (n - 1) as nat, i, c);
        let k = choose|k: int| 0 <= k < before.len() && before[k] == c;
        assert(all[k] == c);
    }
}

proof fn differences_of_an_item(
    rs: Seq<JsonView>,
    os: Seq<JsonView>,
    path: Seq<char>,
    n: nat,
    i: int,
    c: ChangeView,
)
    requires
        n <= rs.len(),
        0 <= i < n,
        differences_at(rs[i], os[i], item_path(path, i as nat)).contains(c),
    ensures
        item_differences(rs, os, path, n).contains(c),
    decreases n,
{
    item_is_smaller(rs, n - 1);
    let before = item_differences(rs, os, path, (n - 1) as nat);
    let all = item_differences(rs, os, path, n);
    if i == n - 1 {
        let own = differences_at(rs[i], os[i], item_path(path, i as nat));
        let k = choose|k: int| 0 <= k < own.len() && own[k] == c;
        assert(all[before.len() + k] == c);
    } else {
        differences_of_an_item(rs, os, path, (n - 1) as nat, i, c);
        let k = choose|k: int| 0 <= k < before.len() && before[k] == c;
        assert(all[k] == c);
    }
}

/// What differs in any member of an object is among what differs in the object,
/// under the path of that member.
pub proof fn differences_in_members_are_named(
    rs: Seq<(Seq<char>, JsonView)>,
    os: Seq<(Seq<char>, JsonView)>,
    path: Seq<char>,
    i: int,
    c: ChangeView,
)
    requires
        0 <= i < rs.len(),
        holds_no_body(JsonView::Object(rs)),
        !json_eq(JsonView::Object(rs), JsonView::Object(os)),
        find(os, rs[i].0) is Some,
        differences_at(rs[i].1, find(os, rs[i].0)->0, path + "."@ + rs[i].0).contains(c),
    ensures
        differences_at(JsonView::Object(rs), JsonView::Object(os), path).contains(c),
{
    differences_of_a_member(rs, JsonView::Object(os), path, rs.len(), i, c);
}

/// Two arrays of one identity differ in the order of their members if some member
/// is another call than its counterpart, and that alone is named; if none is, what
/// differs between any member and its counterpart is among what differs in the
/// arrays, under the path of its place.
pub proof fn differences_in_items_are_named(
    rs: Seq<JsonView>,
    os: Seq<JsonView>,
    path: Seq<char>,
    i: int,
    c: ChangeView,
)
    requires
        rs.len() == os.len(),
        0 <= i < rs.len(),
        !json_eq(JsonView::Array(rs), JsonView::Array(os)),
    ensures
        identity_of(rs[i]) != identity_of(os[i]) ==> differences_at(
            JsonView::Array(rs),
            JsonView::Array(os),
            path,
        ) == seq![ChangeView::ArrayOrder(path)],
        (forall|k: int|
            0 <= k < rs.len() ==> identity_of(#[trigger] rs[k]) == identity_of(os[k]))
            && differences_at(rs[i], os[i], path + "["@ + decimal(i as nat) + "]"@).contains(c)
            ==> differences_at(JsonView::Array(rs), JsonView::Array(os), path).contains(c),
{
    let r = JsonView::Array(rs);
    let o = JsonView::Array(os);
    let n = rs.len();
    if identity_of(rs[i]) != identity_of(os[i]) {
        assert(!(forall|k: int|
            0 <= k < n ==> identity_of(#[trigger] r->Array_0[k]) == identity_of(o->Array_0[k]))) by {
            assert(identity_of(r->Array_0[i]) != identity_of(o->Array_0[i]));
        }
    }
    if (forall|k: int| 0 <= k < rs.len() ==> identity_of(#[trigger] rs[k]) == identity_of(os[k]))
        && differences_at(rs[i], os[i], item_path(path, i as nat)).contains(c) {
        assert forall|k: int| 0 <= k < n implies identity_of(#[trigger] r->Array_0[k])
            == identity_of(o->Array_0[k]) by {
            assert(identity_of(rs[k]) == identity_of(os[k]));
        }
        differences_of_an_item(rs, os, path, n, i, c);
        assert(differences_at(r, o, path) == item_differences(rs, os, path, n));
    }
}

/// Two strings of one identity that are not written alike differ in the text of
/// their document, and that alone is named.
pub proof fn differences_in_documents_are_named(s: Seq<char>, t: Seq<char>, path: Seq<char>)
    requires
        s != t,
    ensures
        differences_at(JsonView::String(s), JsonView::String(t), path) == seq![
            ChangeView::DocumentText(path),
        ],
{
}

/// Where two calls of one identity, without captured bodies, are not equal, some
/// difference is named: nothing is read differently in silence.
pub proof fn every_change_is_named(a: JsonView, b: JsonView, path: Seq<char>)
    requires
        a.wf(),
        b.wf(),
        holds_no_body(a),
        identity_of(a) == identity_of(b),
    ensures
        differences_at(a, b, path).len() == 0 <==> json_eq(a, b),
    decreases a.size(),
{
    if json_eq(a, b) {
    } else {
        if b is Object && !is_form(b) && is_json_body(b) {
            body_identity(b);
        }
        match a {
            JsonView::Array(x) => {
                let y = b->Array_0;
                multiplicity_counts(x, y);
                let n = x.len();
                if forall|k: int|
                    0 <= k < n ==> identity_of(#[trigger] x[k]) == identity_of(y[k]) {
                    let i = choose|i: int| 0 <= i < n && !json_eq(#[trigger] x[i], y[i]);
                    item_is_smaller(x, i);
                    item_is_well_formed(x, i);
                    item_is_well_formed(y, i);
                    assert(holds_no_body(a->Array_0[i]));
                    every_change_is_named(x[i], y[i], item_path(path, i as nat));
                    let own = differences_at(x[i], y[i], item_path(path, i as nat));
                    assert(own.contains(own[0]));
                    differences_in_items_are_named(x, y, path, i, own[0]);
                } else {
                    let i = choose|i: int|
                        0 <= i < n && identity_of(#[trigger] x[i]) != identity_of(y[i]);
                    differences_in_items_are_named(x, y, path, i, ChangeView::ArrayOrder(path));
                }
            },
            JsonView::Object(x) => {
                let y = b->Object_0;
                object_identity(x);
                object_identity(y);
                assert(distinct_keys(x));
                assert(distinct_keys(y));
                assert forall|i: int| 0 <= i < x.len() implies find(y, (#[trigger] x[i]).0) is Some by {
                    key_is_found(x, i);
                    assert(member_identities(x).dom().contains(x[i].0));
                    assert(member_identities(y).dom().contains(x[i].0));
                }
                assert forall|i: int| 0 <= i < y.len() implies find(x, (#[trigger] y[i]).0) is Some by {
                    key_is_found(y, i);
                    assert(member_identities(y).dom().contains(y[i].0));
                    assert(member_identities(x).dom().contains(y[i].0));
                }
                as_many_keys(x, y);
                as_many_keys(y, x);
                let i = choose|i: int|
                    0 <= i < x.len() && !(match find(y, (#[trigger] x[i]).0) {
                        Some(other) => json_eq(x[i].1, other),
                        None => false,
                    });
                let key = x[i].0;
                let j = found_stands_under_its_key(y, key);
                key_is_found(x, i);
                assert(member_identities(x)[key] == member_identities(y)[key]);
                member_is_smaller(x, i);
                member_is_well_formed(x, i);
                member_is_well_formed(y, j);
                assert(holds_no_body(a->Object_0[i].1));
                every_change_is_named(x[i].1, y[j].1, member_path(path, key));
                let own = differences_at(x[i].1, y[j].1, member_path(path, key));
                assert(own.contains(own[0]));
                differences_in_members_are_named(x, y, path, i, own[0]);
            },
            _ => {},
        }
    }
}

proof fn as_many_keys(x: Seq<(Seq<char>, JsonView)>, y: Seq<(Seq<char>, JsonView)>)
    requires
        distinct_keys(x),
        forall|i: int| 0 <= i < x.len() ==> find(y, (#[trigger] x[i]).0) is Some,
    ensures
        x.len() <= y.len(),
{
    let kx = x.map_values(|m: (Seq<char>, JsonView)| m.0);
    let ky = y.map_values(|m: (Seq<char>, JsonView)| m.0);
    assert(kx.no_duplicates());
    kx.unique_seq_to_set();
    ky.lemma_cardinality_of_set();
    assert(kx.to_set().subset_of(ky.to_set())) by {
        assert forall|k: Seq<char>| kx.to_set().contains(k) implies ky.to_set().contains(k) by {
            let i = choose|i: int| 0 <= i < kx.len() && kx[i] == k;
            assert(find(y, x[i].0) is Some);
            let j = found_stands_under_its_key(y, k);
            assert(ky[j] == k);
        }
    }
    vstd::set_lib::lemma_len_subset(kx.to_set(), ky.to_set());
}

/// The changes are all given, each as often as it was found, in the order of
/// their keys.
pub proof fn sorting_keeps_every_change(s: Seq<ChangeView>)
    requires
        s.len() <= usize::MAX,
    ensures
        sorted_changes(s).to_multiset() == s.to_multiset(),
        sorted_changes(s).len() == s.len(),
        forall|i: int, j: int|
            0 <= i < j < s.len() ==> text_le(
                (#[trigger] sorted_changes(s)[i]).key(),
                (#[trigger] sorted_changes(s)[j]).key(),
            ),
{
    let keys = s.map_values(|c: ChangeView| c.key());
    order_only_rearranges(s, keys);
    assert(sorted_changes(s) =~= arranged(s, order_of(keys)));
    order_is_stable(keys);
    assert forall|i: int, j: int| 0 <= i < j < s.len() implies text_le(
        (#[trigger] sorted_changes(s)[i]).key(),
        (#[trigger] sorted_changes(s)[j]).key(),
    ) by {
        let a = order_of(keys)[i];
        let b = order_of(keys)[j];
        assert(text_le(keys[a as int], keys[b as int]));
    }
}

/// Whether order or spelling could differ is asked of every part of a value: it
/// could wherever it could in some member of an array or of an object, and in any
/// array of two or more members.
pub proof fn every_part_is_asked(s: Seq<JsonView>, m: Seq<(Seq<char>, JsonView)>, i: int)
    ensures
        s.len() > 1 ==> applies(JsonView::Array(s)),
        0 <= i < s.len() && applies(s[i]) ==> applies(JsonView::Array(s)),
        0 <= i < m.len() && applies(m[i].1) && !is_form(JsonView::Object(m)) && !is_json_body(
            JsonView::Object(m),
        ) ==> applies(JsonView::Object(m)),
        s.len() <= 1 && (forall|k: int| 0 <= k < s.len() ==> !applies(#[trigger] s[k]))
            ==> !applies(JsonView::Array(s)),
{
    let a = JsonView::Array(s);
    let o = JsonView::Object(m);
    if 0 <= i < s.len() && applies(s[i]) {
        item_is_smaller(s, i);
        assert(a->Array_0[i].size() < a.size() && applies(a->Array_0[i]));
    }
    if 0 <= i < m.len() && applies(m[i].1) {
        member_is_smaller(m, i);
        assert(o->Object_0[i].1.size() < o.size() && applies(o->Object_0[i].1));
    }
}

/// A text holds a document exactly where, white space around it set aside, it is
/// written like an object or an array and reads as one that is well formed and no
/// larger than the text; no other text holds one.
pub proof fn documents_are_objects_and_arrays(s: Seq<char>, d: JsonView)
    ensures
        embedded(s) == Some(d) <==> {
            let t = trimmed(s);
            &&& t.len() > 0
            &&& (t[0] == '{' && t.last() == '}') || (t[0] == '[' && t.last() == ']')
            &&& parsed_json(t) == Some(d)
            &&& d is Object || d is Array
            &&& d.wf()
            &&& d.size() <= s.len()
        },
{
}

/// A captured form body is told by its kind and a text to split, its own or that
/// of its bytes; a captured JSON body by its kind and a document that is not null;
/// no other value is a captured body.
pub proof fn bodies_are_told_by_their_kind(v: JsonView, t: Seq<char>, items: Seq<JsonView>)
    ensures
        is_form(v) ==> v.member("kind"@) == Some(JsonView::String("FormUrlEncodedRequestBody"@)),
        is_json_body(v) <==> v.member("kind"@) == Some(JsonView::String("JsonRequestBody"@))
            && v.member("json"@) is Some && !(v.member("json"@)->0 is Null),
        v.member("text"@) == Some(JsonView::String(t)) ==> body_text(v) == Some(t),
        !(v.member("text"@) is Some && v.member("text"@)->0 is String) && v.member("raw_bytes"@)
            == Some(JsonView::Array(items)) ==> body_text(v) == (match bytes_in(items) {
            Some(bytes) => if valid_utf8(bytes) {
                Some(decode_utf8(bytes))
            } else {
                None
            },
            None => None,
        }),
        v.member("kind"@) == Some(JsonView::String("FormUrlEncodedRequestBody"@)) ==> (is_form(v)
            <==> body_text(v) is Some),
        is_form(v) ==> spliced(form_fields(v), '&') == body_text(v)->0,
{
    if is_form(v) {
        splicing_undoes_splitting(body_text(v)->0, '&');
    }
}

/// The bytes in an array are read off all its members, each in its place, and are
/// there only if every member is a number below 256.
pub proof fn every_byte_is_read(items: Seq<JsonView>)
    ensures
        bytes_in(items) matches Some(bytes) ==> bytes.len() == items.len() && forall|i: int|
            0 <= i < items.len() ==> (#[trigger] items[i]).number_u64() == Some(bytes[i] as u64),
        (forall|i: int|
            0 <= i < items.len() ==> (#[trigger] items[i]).number_u64() is Some
                && items[i].number_u64()->0 < 256) ==> bytes_in(items) is Some,
    decreases items.len(),
{
    if items.len() > 0 {
        let before = items.drop_last();
        let n = items.len() - 1;
        every_byte_is_read(before);
        if bytes_in(items) is Some {
            let bytes = bytes_in(items)->0;
            let fewer = bytes_in(before)->0;
            assert(items[n] == items.last());
            assert forall|i: int| 0 <= i < items.len() implies (#[trigger] items[i]).number_u64()
                == Some(bytes[i] as u64) by {
                if i < n {
                    assert(before[i] == items[i]);
                    assert(bytes[i] == fewer[i]);
                }
            }
        }
        if forall|i: int|
            0 <= i < items.len() ==> (#[trigger] items[i]).number_u64() is Some
                && items[i].number_u64()->0 < 256 {
            assert(items[n].number_u64() is Some);
            assert forall|i: int| 0 <= i < before.len() implies (
            #[trigger] before[i]).number_u64() is Some && before[i].number_u64()->0 < 256 by {
                assert(items[i].number_u64() is Some);
            }
        }
    }
}

/// Changes are ordered by what they are and then by where: a change of order is
/// told from a change of text, and each kind goes by its path.
pub proof fn changes_go_by_kind_and_path(a: ChangeView, b: ChangeView)
    ensures
        a matches ChangeView::ArrayOrder(p) ==> a.key() == "a"@ + p && a.path() == p,
        a matches ChangeView::DocumentText(p) ==> a.key() == "d"@ + p && a.path() == p,
        a.key() == b.key() ==> a == b,
{
    reveal_strlit("a");
    reveal_strlit("d");
    if a.key() == b.key() {
        assert(a.key()[0] == b.key()[0]);
        assert(a.key().skip(1) =~= a.path());
        assert(b.key().skip(1) =~= b.path());
    }
}

/// A form never has another spelling of its identity; the body of a request has
/// one exactly where its document has; an array of two or more members always has
/// one, and any other array or object exactly where something in it has.
pub proof fn other_spellings_come_from_what_is_held(v: JsonView)
    ensures
        is_form(v) ==> !applies(v),
        !is_form(v) && is_json_body(v) ==> applies(v) == applies(v.member("json"@)->0),
        v matches JsonView::Array(s) ==> (s.len() > 1 ==> applies(v)) && (s.len() == 0 ==> !applies(v))
            && (s.len() == 1 ==> applies(v) == applies(s[0])),
        v matches JsonView::Object(s) ==> !is_form(v) && !is_json_body(v) ==> (applies(v)
            <==> exists|i: int| 0 <= i < s.len() && applies((#[trigger] s[i]).1)),
        v is Null || v is Bool || v is Number ==> !applies(v),
{
    if !is_form(v) && is_json_body(v) {
        body_identity(v);
    }
    if let JsonView::Array(s) = v {
        if s.len() == 1 {
            item_is_smaller(s, 0);
        }
    }
    if let JsonView::Object(s) = v {
        assert forall|i: int| 0 <= i < s.len() implies (#[trigger] s[i]).1.size() < v.size() by {
            member_is_smaller(s, i);
        }
    }
}

} // verus!
