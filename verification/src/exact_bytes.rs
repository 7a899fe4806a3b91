//! The bytes that the exact hash of a value reads, and what they tell apart.

use vstd::prelude::*;
use vstd::utf8::{char_is_scalar, char_u32_cast, encode_scalar, encode_utf8, is_scalar};
use crate::args_hash::{
    digest_of, exact_hash, fields_fit_in_the_size, fields_hash, items_hash, member_keys,
    members_fit_in_the_size, ordered_members_hash, sorted_keys, sorted_keys_are_the_keys,
    ARRAY_CLOSE, ARRAY_OPEN, BODY_BYTE, FALSE_BYTE, FORM_BYTE, NULL_BYTE, NUMBER_BYTE,
    OBJECT_CLOSE, OBJECT_OPEN, STRING_BYTE, TRUE_BYTE,
};
use crate::fnv::{
    fnv, fnv_of_two_runs, fnv_text, hashes_stay_apart, le_bytes, numbers_are_told_apart,
    one_byte_is_told_apart, FNV_OFFSET_BASIS,
};
use crate::identity::{body_identity, body_text, form_fields, is_form, is_json_body};
use crate::json::{
    distinct_keys, find, found_stands_under_its_key, item_is_smaller, item_is_well_formed,
    key_is_found, member_is_smaller, member_is_well_formed, JsonView,
};
use crate::order::{arranged, order_is_stable, order_of, order_only_rearranges};
use crate::text::{encoding_is_injective, split_is_not_empty, split_on};

verus! {

/// A text as it is hashed: its UTF-8 bytes, closed by a byte that no text holds.
pub open spec fn closed_text(s: Seq<char>) -> Seq<u8> {
    encode_utf8(s).push(0xff)
}

/// The bytes that the exact hash reads of a value.
pub open spec fn exact_bytes(v: JsonView) -> Seq<u8>
    decreases v.size(), 1nat, 0nat,
{
    match v {
        JsonView::Null => seq![NULL_BYTE],
        JsonView::Bool(b) => seq![if b { TRUE_BYTE } else { FALSE_BYTE }],
        JsonView::Number(n) => seq![NUMBER_BYTE] + closed_text(n),
        JsonView::String(s) => seq![STRING_BYTE] + closed_text(s),
        JsonView::Array(s) => seq![ARRAY_OPEN] + item_bytes(s, 0),
        JsonView::Object(s) => if is_form(v) {
            seq![FORM_BYTE] + field_bytes(form_fields(v), order_of(form_fields(v)), 0)
        } else if is_json_body(v) {
            let d = v.member("json"@)->0;
            seq![BODY_BYTE] + if d.size() < v.size() {
                exact_bytes(d)
            } else {
                Seq::empty()
            }
        } else {
            seq![OBJECT_OPEN] + member_bytes(s, order_of(member_keys(s)), 0)
        },
    }
}

/// The bytes of an array's members from one place on, and of its end.
pub open spec fn item_bytes(s: Seq<JsonView>, i: nat) -> Seq<u8>
    decreases JsonView::Array(s).size(), 0nat, s.len() - i,
{
    if i >= s.len() {
        seq![ARRAY_CLOSE]
    } else {
        (if s[i as int].size() < JsonView::Array(s).size() {
            exact_bytes(s[i as int])
        } else {
            Seq::empty()
        }) + item_bytes(s, i + 1)
    }
}

/// The bytes of an object's members, taken in an order, from one place on, and
/// of its end.
pub open spec fn member_bytes(
    s: Seq<(Seq<char>, JsonView)>,
    order: Seq<usize>,
    i: nat,
) -> Seq<u8>
    decreases JsonView::Object(s).size(), 0nat, order.len() - i,
{
    if i >= order.len() {
        seq![OBJECT_CLOSE]
    } else {
        let m = s[order[i as int] as int];
        (if m.1.size() < JsonView::Object(s).size() {
            closed_text(m.0) + exact_bytes(m.1)
        } else {
            Seq::empty()
        }) + member_bytes(s, order, i + 1)
    }
}

/// The bytes of a form's fields, taken in an order, from one place on, and of its
/// end.
pub open spec fn field_bytes(fields: Seq<Seq<char>>, order: Seq<usize>, i: nat) -> Seq<u8>
    decreases order.len() - i,
{
    if i >= order.len() {
        seq![FORM_BYTE]
    } else {
        closed_text(fields[order[i as int] as int]) + field_bytes(fields, order, i + 1)
    }
}

proof fn items_are_read(hash: u64, s: Seq<JsonView>, n: nat)
    requires
        n <= s.len(),
    ensures
        fnv(items_hash(hash, s, n), item_bytes(s, n)) == fnv(hash, item_bytes(s, 0)),
    decreases JsonView::Array(s).size(), 0nat, n,
{
    if n > 0 {
        items_are_read(hash, s, (n - 1) as nat);
        item_is_smaller(s, n - 1);
        let before = items_hash(hash, s, (n - 1) as nat);
        the_hash_reads_the_bytes(before, s[n - 1]);
        fnv_of_two_runs(before, exact_bytes(s[n - 1]), item_bytes(s, n));
    }
}

proof fn members_are_read(hash: u64, s: Seq<(Seq<char>, JsonView)>, order: Seq<usize>, n: nat)
    requires
        n <= order.len(),
    ensures
        fnv(ordered_members_hash(hash, s, order, n), member_bytes(s, order, n)) == fnv(
            hash,
            member_bytes(s, order, 0),
        ),
    decreases JsonView::Object(s).size(), 0nat, n,
{
    if n > 0 {
        members_are_read(hash, s, order, (n - 1) as nat);
        let p = order[n - 1] as int;
        let before = ordered_members_hash(hash, s, order, (n - 1) as nat);
        let rest = member_bytes(s, order, n);
        if s[p].1.size() < JsonView::Object(s).size() {
            the_hash_reads_the_bytes(fnv_text(before, s[p].0), s[p].1);
            fnv_of_two_runs(before, closed_text(s[p].0), exact_bytes(s[p].1));
            fnv_of_two_runs(before, closed_text(s[p].0) + exact_bytes(s[p].1), rest);
        } else {
            assert(Seq::<u8>::empty() + rest =~= rest);
        }
    }
}

proof fn fields_are_read(hash: u64, fields: Seq<Seq<char>>, order: Seq<usize>, n: nat)
    requires
        n <= order.len(),
    ensures
        fnv(fields_hash(hash, fields, order, n), field_bytes(fields, order, n)) == fnv(
            hash,
            field_bytes(fields, order, 0),
        ),
    decreases n,
{
    if n > 0 {
        fields_are_read(hash, fields, order, (n - 1) as nat);
        fnv_of_two_runs(
            fields_hash(hash, fields, order, (n - 1) as nat),
            closed_text(fields[order[n - 1] as int]),
            field_bytes(fields, order, n),
        );
    }
}

/// The exact hash of a value is the FNV-1a hash of its bytes.
pub proof fn the_hash_reads_the_bytes(hash: u64, v: JsonView)
    ensures
        exact_hash(hash, v) == fnv(hash, exact_bytes(v)),
    decreases v.size(), 1nat, 0nat,
{
    match v {
        JsonView::Null => {},
        JsonView::Bool(_) => {},
        JsonView::Number(n) => {
            fnv_of_two_runs(hash, seq![NUMBER_BYTE], closed_text(n));
        },
        JsonView::String(s) => {
            fnv_of_two_runs(hash, seq![STRING_BYTE], closed_text(s));
        },
        JsonView::Array(s) => {
            items_are_read(fnv(hash, seq![ARRAY_OPEN]), s, s.len());
            fnv_of_two_runs(hash, seq![ARRAY_OPEN], item_bytes(s, 0));
        },
        JsonView::Object(s) => {
            if is_form(v) {
                let order = order_of(form_fields(v));
                fields_are_read(fnv(hash, seq![FORM_BYTE]), form_fields(v), order, order.len());
                fnv_of_two_runs(
                    hash,
                    seq![FORM_BYTE],
                    field_bytes(form_fields(v), order, 0),
                );
            } else if is_json_body(v) {
                body_identity(v);
                let d = v.member("json"@)->0;
                the_hash_reads_the_bytes(fnv(hash, seq![BODY_BYTE]), d);
                fnv_of_two_runs(hash, seq![BODY_BYTE], exact_bytes(d));
            } else {
                let order = order_of(member_keys(s));
                members_are_read(fnv(hash, seq![OBJECT_OPEN]), s, order, order.len());
                fnv_of_two_runs(hash, seq![OBJECT_OPEN], member_bytes(s, order, 0));
            }
        },
    }
}

/// Mixing a value into two hashes keeps them apart: nothing that was hashed
/// before a value is lost by it.
pub proof fn earlier_hashes_stay_apart(a: u64, b: u64, v: JsonView)
    requires
        exact_hash(a, v) == exact_hash(b, v),
    ensures
        a == b,
{
    the_hash_reads_the_bytes(a, v);
    the_hash_reads_the_bytes(b, v);
    hashes_stay_apart(a, b, exact_bytes(v));
}

/// The two truth values and null are hashed apart, from whatever hash they are
/// mixed into.
pub proof fn truth_is_told_apart(hash: u64)
    ensures
        exact_hash(hash, JsonView::Bool(true)) != exact_hash(hash, JsonView::Bool(false)),
        exact_hash(hash, JsonView::Bool(true)) != exact_hash(hash, JsonView::Null),
        exact_hash(hash, JsonView::Bool(false)) != exact_hash(hash, JsonView::Null),
{
    let none = Seq::<u8>::empty();
    assert(seq![TRUE_BYTE] =~= none.push(TRUE_BYTE) + none);
    assert(seq![FALSE_BYTE] =~= none.push(FALSE_BYTE) + none);
    assert(seq![NULL_BYTE] =~= none.push(NULL_BYTE) + none);
    one_byte_is_told_apart(hash, none, TRUE_BYTE, FALSE_BYTE, none);
    one_byte_is_told_apart(hash, none, TRUE_BYTE, NULL_BYTE, none);
    one_byte_is_told_apart(hash, none, FALSE_BYTE, NULL_BYTE, none);
}

/// The bytes of a character: none closes a text, and none is zero but that of the
/// character zero; an ASCII character is one byte, and no other starts like one.
pub proof fn bytes_of_a_scalar(c: u32)
    requires
        is_scalar(c),
    ensures
        encode_scalar(c).len() >= 1,
        forall|i: int| 0 <= i < encode_scalar(c).len() ==> #[trigger] encode_scalar(c)[i] != 0xff,
        c != 0 ==> forall|i: int|
            0 <= i < encode_scalar(c).len() ==> #[trigger] encode_scalar(c)[i] != 0,
        c < 0x80 ==> encode_scalar(c)[0] == c,
        c >= 0x80 ==> encode_scalar(c)[0] >= 0x80,
{
    assert(c <= 0x7f ==> (c & 0x7f) as u8 == c) by (bit_vector);
    assert((0xc0u8 | ((c >> 6) & 0x1f) as u8) >= 0x80u8 && (0xc0u8 | ((c >> 6) & 0x1f) as u8)
        != 0xffu8) by (bit_vector);
    assert((0xe0u8 | ((c >> 12) & 0x0f) as u8) >= 0x80u8 && (0xe0u8 | ((c >> 12) & 0x0f) as u8)
        != 0xffu8) by (bit_vector);
    assert((0xf0u8 | ((c >> 18) & 0x7) as u8) >= 0x80u8 && (0xf0u8 | ((c >> 18) & 0x7) as u8)
        != 0xffu8) by (bit_vector);
    assert((0x80u8 | (c & 0x3f) as u8) >= 0x80u8 && (0x80u8 | (c & 0x3f) as u8) != 0xffu8) by (bit_vector);
    assert((0x80u8 | ((c >> 6) & 0x3f) as u8) >= 0x80u8 && (0x80u8 | ((c >> 6) & 0x3f) as u8) != 0xffu8) by (bit_vector);
    assert((0x80u8 | ((c >> 12) & 0x3f) as u8) >= 0x80u8 && (0x80u8 | ((c >> 12) & 0x3f) as u8) != 0xffu8) by (bit_vector);
}

/// An ASCII character is the first byte of those texts alone that start with it.
proof fn first_byte_of_a_text(s: Seq<char>, first: char, byte: u8)
    requires
        byte < 0x80,
        first as u32 == byte,
        s.len() > 0 ==> s[0] != first,
    ensures
        closed_text(s)[0] != byte,
{
    if s.len() > 0 {
        char_u32_cast(first, first as u32);
        char_u32_cast(s[0], s[0] as u32);
        char_is_scalar(s[0]);
        bytes_of_a_scalar(s[0] as u32);
        assert(closed_text(s)[0] == encode_scalar(s[0] as u32)[0]);
    }
}

pub proof fn no_text_holds_its_end(s: Seq<char>)
    ensures
        forall|i: int| 0 <= i < encode_utf8(s).len() ==> #[trigger] encode_utf8(s)[i] != 0xff,
    decreases s.len(),
{
    if s.len() > 0 {
        char_is_scalar(s[0]);
        bytes_of_a_scalar(s[0] as u32);
        no_text_holds_its_end(s.drop_first());
        let a = encode_scalar(s[0] as u32);
        let b = encode_utf8(s.drop_first());
        assert forall|i: int| 0 <= i < encode_utf8(s).len() implies #[trigger] encode_utf8(s)[i]
            != 0xff by {
            if i < a.len() {
                assert(encode_utf8(s)[i] == a[i]);
            } else {
                assert(encode_utf8(s)[i] == b[i - a.len()]);
            }
        }
    }
}

/// A closed text shows where it ends: two runs of bytes that each start with one
/// and are equal start with the same text, and go on alike.
pub proof fn closed_texts_are_told_apart(s: Seq<char>, t: Seq<char>, x: Seq<u8>, y: Seq<u8>)
    requires
        closed_text(s) + x == closed_text(t) + y,
    ensures
        s == t,
        x == y,
{
    no_text_holds_its_end(s);
    no_text_holds_its_end(t);
    let a = encode_utf8(s);
    let b = encode_utf8(t);
    let p = closed_text(s) + x;
    let q = closed_text(t) + y;
    assert(p[a.len() as int] == 0xff);
    assert(q[b.len() as int] == 0xff);
    if a.len() < b.len() {
        assert(q[a.len() as int] == b[a.len() as int]);
    }
    if b.len() < a.len() {
        assert(p[b.len() as int] == a[b.len() as int]);
    }
    assert(a =~= b) by {
        assert forall|i: int| 0 <= i < a.len() implies a[i] == b[i] by {
            assert(p[i] == a[i]);
            assert(q[i] == b[i]);
        }
    }
    encoding_is_injective(s, t);
    tails_of_one_front(closed_text(s), x, y);
}

pub proof fn tails_of_one_front(front: Seq<u8>, x: Seq<u8>, y: Seq<u8>)
    requires
        front + x == front + y,
    ensures
        x == y,
{
    assert(x =~= (front + x).skip(front.len() as int));
    assert(y =~= (front + y).skip(front.len() as int));
}

/// Whether the keys of the objects in a value, captured bodies aside, stand clear
/// of the byte that ends an object: none starts with a closing brace. A key that
/// does can be read as the end of its object.
pub open spec fn keys_stand_clear(v: JsonView) -> bool
    decreases v,
{
    match v {
        JsonView::Array(s) => forall|i: int|
            0 <= i < s.len() ==> keys_stand_clear(#[trigger] s[i]),
        JsonView::Object(s) => if is_form(v) {
            true
        } else if is_json_body(v) {
            forall|i: int|
                0 <= i < s.len() && (#[trigger] s[i]).0 == "json"@ ==> keys_stand_clear(s[i].1)
        } else {
            forall|i: int|
                0 <= i < s.len() ==> !((#[trigger] s[i]).0.len() > 0 && s[i].0[0] == '}')
                    && keys_stand_clear(s[i].1)
        },
        _ => true,
    }
}

/// Whether two values have one content: plain values are equal, arrays agree
/// member by member, form bodies hold the same fields, JSON bodies documents of
/// one content, and other objects the same keys with values of one content.
pub open spec fn one_content(a: JsonView, b: JsonView) -> bool
    decreases a,
{
    match (a, b) {
        (JsonView::Array(x), JsonView::Array(y)) => {
            &&& x.len() == y.len()
            &&& forall|i: int| 0 <= i < x.len() ==> one_content(#[trigger] x[i], y[i])
        },
        (JsonView::Object(x), JsonView::Object(y)) => if is_form(a) || is_form(b) {
            &&& is_form(a) && is_form(b)
            &&& form_fields(a).to_multiset() == form_fields(b).to_multiset()
        } else if is_json_body(a) || is_json_body(b) {
            &&& is_json_body(a) && is_json_body(b)
            &&& exists|i: int, j: int|
                0 <= i < x.len() && 0 <= j < y.len() && (#[trigger] x[i]).0 == "json"@ && (
                #[trigger] y[j]).0 == "json"@ && one_content(x[i].1, y[j].1)
        } else {
            &&& x.len() == y.len()
            &&& forall|i: int|
                0 <= i < x.len() ==> exists|j: int|
                    0 <= j < y.len() && (#[trigger] y[j]).0 == (#[trigger] x[i]).0 && one_content(
                        x[i].1,
                        y[j].1,
                    )
        },
        (JsonView::Array(_), _) => false,
        (JsonView::Object(_), _) => false,
        _ => a == b,
    }
}

/// The byte a value opens with.
spec fn opening(v: JsonView) -> u8 {
    match v {
        JsonView::Null => NULL_BYTE,
        JsonView::Bool(b) => if b {
            TRUE_BYTE
        } else {
            FALSE_BYTE
        },
        JsonView::Number(_) => NUMBER_BYTE,
        JsonView::String(_) => STRING_BYTE,
        JsonView::Array(_) => ARRAY_OPEN,
        JsonView::Object(_) => if is_form(v) {
            FORM_BYTE
        } else if is_json_body(v) {
            BODY_BYTE
        } else {
            OBJECT_OPEN
        },
    }
}

proof fn values_open_with_their_byte(v: JsonView)
    ensures
        exact_bytes(v).len() > 0,
        exact_bytes(v)[0] == opening(v),
        opening(v) != ARRAY_CLOSE,
{
}

proof fn pieces_hold_no_separator(s: Seq<char>, sep: char)
    ensures
        forall|i: int, k: int|
            0 <= i < split_on(s, sep).len() && 0 <= k < split_on(s, sep)[i].len()
                ==> #[trigger] split_on(s, sep)[i][k] != sep,
    decreases s.len(),
{
    split_is_not_empty(s, sep);
    if s.len() > 0 {
        pieces_hold_no_separator(s.drop_last(), sep);
        split_is_not_empty(s.drop_last(), sep);
        let before = split_on(s.drop_last(), sep);
        let after = split_on(s, sep);
        assert forall|i: int, k: int| 0 <= i < after.len() && 0 <= k < after[i].len() implies
            #[trigger] after[i][k] != sep by {
            if i < before.len() && k < before[i].len() {
                assert(before[i][k] != sep);
                assert(after[i][k] == before[i][k]);
            }
        }
    }
}

proof fn fields_are_told_apart(
    f: Seq<Seq<char>>,
    p: Seq<usize>,
    g: Seq<Seq<char>>,
    q: Seq<usize>,
    i: nat,
    x: Seq<u8>,
    y: Seq<u8>,
)
    requires
        i <= p.len(),
        i <= q.len(),
        field_bytes(f, p, i) + x == field_bytes(g, q, i) + y,
        forall|k: int| 0 <= k < p.len() ==> (#[trigger] p[k]) < f.len(),
        forall|k: int| 0 <= k < q.len() ==> (#[trigger] q[k]) < g.len(),
        forall|k: int, c: int|
            0 <= k < f.len() && 0 <= c < f[k].len() ==> #[trigger] f[k][c] != '&',
        forall|k: int, c: int|
            0 <= k < g.len() && 0 <= c < g[k].len() ==> #[trigger] g[k][c] != '&',
    ensures
        p.len() == q.len(),
        forall|k: int| i <= k < p.len() ==> f[#[trigger] p[k] as int] == g[q[k] as int],
        x == y,
    decreases p.len() - i,
{
    let s = field_bytes(f, p, i);
    let t = field_bytes(g, q, i);
    assert((s + x)[0] == s[0]);
    assert((t + y)[0] == t[0]);
    if i < p.len() {
        let a = f[p[i as int] as int];
        if a.len() > 0 {
            assert(a[0] != '&');
        }
        first_byte_of_a_text(a, '&', FORM_BYTE);
        assert(s[0] == closed_text(a)[0]);
    }
    if i < q.len() {
        let b = g[q[i as int] as int];
        if b.len() > 0 {
            assert(b[0] != '&');
        }
        first_byte_of_a_text(b, '&', FORM_BYTE);
        assert(t[0] == closed_text(b)[0]);
    }
    if i < p.len() && i < q.len() {
        let a = f[p[i as int] as int];
        let b = g[q[i as int] as int];
        let s1 = field_bytes(f, p, i + 1);
        let t1 = field_bytes(g, q, i + 1);
        assert(s + x =~= closed_text(a) + (s1 + x));
        assert(t + y =~= closed_text(b) + (t1 + y));
        closed_texts_are_told_apart(a, b, s1 + x, t1 + y);
        fields_are_told_apart(f, p, g, q, i + 1, x, y);
    } else {
        tails_of_one_front(seq![FORM_BYTE], x, y);
    }
}

proof fn items_are_told_apart(s: Seq<JsonView>, t: Seq<JsonView>, i: nat, x: Seq<u8>, y: Seq<u8>)
    requires
        i <= s.len(),
        i <= t.len(),
        JsonView::Array(s).wf(),
        JsonView::Array(t).wf(),
        JsonView::Array(s).size() <= usize::MAX,
        JsonView::Array(t).size() <= usize::MAX,
        keys_stand_clear(JsonView::Array(s)),
        keys_stand_clear(JsonView::Array(t)),
        item_bytes(s, i) + x == item_bytes(t, i) + y,
    ensures
        s.len() == t.len(),
        forall|k: int| i <= k < s.len() ==> one_content(#[trigger] s[k], t[k]),
        x == y,
    decreases JsonView::Array(s).size(), 0nat, s.len() - i,
{
    let a = item_bytes(s, i);
    let b = item_bytes(t, i);
    if i < s.len() {
        item_is_smaller(s, i as int);
        values_open_with_their_byte(s[i as int]);
        assert(a[0] == exact_bytes(s[i as int])[0]);
    }
    if i < t.len() {
        item_is_smaller(t, i as int);
        values_open_with_their_byte(t[i as int]);
        assert(b[0] == exact_bytes(t[i as int])[0]);
    }
    assert(a.len() > 0 && b.len() > 0);
    assert((a + x)[0] == a[0]);
    assert((b + y)[0] == b[0]);
    if i < s.len() && i < t.len() {
        let u = s[i as int];
        let v = t[i as int];
        let a1 = item_bytes(s, i + 1);
        let b1 = item_bytes(t, i + 1);
        assert(a + x =~= exact_bytes(u) + (a1 + x));
        assert(b + y =~= exact_bytes(v) + (b1 + y));
        item_is_well_formed(s, i as int);
        item_is_well_formed(t, i as int);
        assert(keys_stand_clear(JsonView::Array(s)->Array_0[i as int]));
        assert(keys_stand_clear(JsonView::Array(t)->Array_0[i as int]));
        values_are_told_apart(u, v, a1 + x, b1 + y);
        items_are_told_apart(s, t, i + 1, x, y);
    } else {
        tails_of_one_front(seq![ARRAY_CLOSE], x, y);
    }
}

proof fn members_are_told_apart(
    s: Seq<(Seq<char>, JsonView)>,
    p: Seq<usize>,
    t: Seq<(Seq<char>, JsonView)>,
    q: Seq<usize>,
    i: nat,
    x: Seq<u8>,
    y: Seq<u8>,
)
    requires
        i <= p.len(),
        i <= q.len(),
        JsonView::Object(s).wf(),
        JsonView::Object(t).wf(),
        JsonView::Object(s).size() <= usize::MAX,
        JsonView::Object(t).size() <= usize::MAX,
        forall|k: int| 0 <= k < p.len() ==> (#[trigger] p[k]) < s.len(),
        forall|k: int| 0 <= k < q.len() ==> (#[trigger] q[k]) < t.len(),
        forall|k: int|
            0 <= k < s.len() ==> !((#[trigger] s[k]).0.len() > 0 && s[k].0[0] == '}')
                && keys_stand_clear(s[k].1),
        forall|k: int|
            0 <= k < t.len() ==> !((#[trigger] t[k]).0.len() > 0 && t[k].0[0] == '}')
                && keys_stand_clear(t[k].1),
        member_bytes(s, p, i) + x == member_bytes(t, q, i) + y,
    ensures
        p.len() == q.len(),
        forall|k: int|
            i <= k < p.len() ==> s[(#[trigger] p[k]) as int].0 == t[q[k] as int].0 && one_content(
                s[p[k] as int].1,
                t[q[k] as int].1,
            ),
        x == y,
    decreases JsonView::Object(s).size(), 0nat, p.len() - i,
{
    let a = member_bytes(s, p, i);
    let b = member_bytes(t, q, i);
    if i < p.len() {
        let u = s[p[i as int] as int];
        member_is_smaller(s, p[i as int] as int);
        first_byte_of_a_text(u.0, '}', OBJECT_CLOSE);
        assert(a[0] == closed_text(u.0)[0]);
    }
    if i < q.len() {
        let v = t[q[i as int] as int];
        member_is_smaller(t, q[i as int] as int);
        first_byte_of_a_text(v.0, '}', OBJECT_CLOSE);
        assert(b[0] == closed_text(v.0)[0]);
    }
    assert(a.len() > 0 && b.len() > 0);
    assert((a + x)[0] == a[0]);
    assert((b + y)[0] == b[0]);
    if i < p.len() && i < q.len() {
        let u = s[p[i as int] as int];
        let v = t[q[i as int] as int];
        let a1 = member_bytes(s, p, i + 1);
        let b1 = member_bytes(t, q, i + 1);
        assert(a + x =~= closed_text(u.0) + (exact_bytes(u.1) + (a1 + x)));
        assert(b + y =~= closed_text(v.0) + (exact_bytes(v.1) + (b1 + y)));
        closed_texts_are_told_apart(
            u.0,
            v.0,
            exact_bytes(u.1) + (a1 + x),
            exact_bytes(v.1) + (b1 + y),
        );
        member_is_well_formed(s, p[i as int] as int);
        member_is_well_formed(t, q[i as int] as int);
        values_are_told_apart(u.1, v.1, a1 + x, b1 + y);
        members_are_told_apart(s, p, t, q, i + 1, x, y);
    } else {
        tails_of_one_front(seq![OBJECT_CLOSE], x, y);
    }
}

proof fn keyed_members_have_one_content(
    s: Seq<(Seq<char>, JsonView)>,
    t: Seq<(Seq<char>, JsonView)>,
)
    requires
        distinct_keys(s),
        s.len() <= usize::MAX,
        t.len() <= usize::MAX,
        order_of(member_keys(s)).len() == order_of(member_keys(t)).len(),
        forall|k: int|
            0 <= k < order_of(member_keys(s)).len() ==> s[(#[trigger] order_of(
                member_keys(s),
            )[k]) as int].0 == t[order_of(member_keys(t))[k] as int].0 && one_content(
                s[order_of(member_keys(s))[k] as int].1,
                t[order_of(member_keys(t))[k] as int].1,
            ),
    ensures
        s.len() == t.len(),
        forall|i: int|
            0 <= i < s.len() ==> exists|j: int|
                0 <= j < t.len() && (#[trigger] t[j]).0 == (#[trigger] s[i]).0 && one_content(
                    s[i].1,
                    t[j].1,
                ),
{
    let p = order_of(member_keys(s));
    let q = order_of(member_keys(t));
    order_is_stable(member_keys(s));
    order_is_stable(member_keys(t));
    sorted_keys_are_the_keys(s);
    assert forall|i: int| 0 <= i < s.len() implies exists|j: int|
        0 <= j < t.len() && (#[trigger] t[j]).0 == (#[trigger] s[i]).0 && one_content(
            s[i].1,
            t[j].1,
        ) by {
        key_is_found(s, i);
        let key = s[i].0;
        assert(sorted_keys(s).contains(key));
        let k = choose|k: int| 0 <= k < sorted_keys(s).len() && sorted_keys(s)[k] == key;
        let m = p[k] as int;
        assert(m < s.len());
        assert(s[m].0 == key);
        if m < i {
            assert(s[m].0 != s[i].0);
        }
        if i < m {
            assert(s[i].0 != s[m].0);
        }
        assert(p[k] == i);
        let j = q[k] as int;
        assert(j < t.len());
        assert(t[j].0 == s[i].0 && one_content(s[i].1, t[j].1));
    }
}

/// The bytes of a value show where it ends, and tell it apart from every value of
/// another content: two runs of bytes that each start with the bytes of a value
/// and are equal start with values of one content, and go on alike.
#[verifier::rlimit(60)]
pub proof fn values_are_told_apart(a: JsonView, b: JsonView, x: Seq<u8>, y: Seq<u8>)
    requires
        a.wf(),
        b.wf(),
        a.size() <= usize::MAX,
        b.size() <= usize::MAX,
        keys_stand_clear(a),
        keys_stand_clear(b),
        exact_bytes(a) + x == exact_bytes(b) + y,
    ensures
        one_content(a, b),
        x == y,
    decreases a.size(), 1nat, 0nat,
{
    values_open_with_their_byte(a);
    values_open_with_their_byte(b);
    assert((exact_bytes(a) + x)[0] == exact_bytes(a)[0]);
    assert((exact_bytes(b) + y)[0] == exact_bytes(b)[0]);
    assert(opening(a) == opening(b));
    let first = seq![opening(a)];
    match (a, b) {
        (JsonView::Number(s), JsonView::Number(t)) => {
            assert(exact_bytes(a) + x =~= first + (closed_text(s) + x));
            assert(exact_bytes(b) + y =~= first + (closed_text(t) + y));
            tails_of_one_front(first, closed_text(s) + x, closed_text(t) + y);
            closed_texts_are_told_apart(s, t, x, y);
        },
        (JsonView::String(s), JsonView::String(t)) => {
            assert(exact_bytes(a) + x =~= first + (closed_text(s) + x));
            assert(exact_bytes(b) + y =~= first + (closed_text(t) + y));
            tails_of_one_front(first, closed_text(s) + x, closed_text(t) + y);
            closed_texts_are_told_apart(s, t, x, y);
        },
        (JsonView::Array(s), JsonView::Array(t)) => {
            assert(exact_bytes(a) + x =~= first + (item_bytes(s, 0) + x));
            assert(exact_bytes(b) + y =~= first + (item_bytes(t, 0) + y));
            tails_of_one_front(first, item_bytes(s, 0) + x, item_bytes(t, 0) + y);
            items_are_told_apart(s, t, 0, x, y);
        },
        (JsonView::Object(s), JsonView::Object(t)) => {
            if is_form(a) {
                let f = form_fields(a);
                let g = form_fields(b);
                let p = order_of(f);
                let q = order_of(g);
                assert(exact_bytes(a) + x =~= first + (field_bytes(f, p, 0) + x));
                assert(exact_bytes(b) + y =~= first + (field_bytes(g, q, 0) + y));
                tails_of_one_front(first, field_bytes(f, p, 0) + x, field_bytes(g, q, 0) + y);
                fields_fit_in_the_size(a);
                fields_fit_in_the_size(b);
                order_is_stable(f);
                order_is_stable(g);
                pieces_hold_no_separator(body_text(a)->0, '&');
                pieces_hold_no_separator(body_text(b)->0, '&');
                fields_are_told_apart(f, p, g, q, 0, x, y);
                order_only_rearranges(f, f);
                order_only_rearranges(g, g);
                assert(arranged(f, p) =~= arranged(g, q));
            } else if is_json_body(a) {
                body_identity(a);
                body_identity(b);
                let i = found_stands_under_its_key(s, "json"@);
                let j = found_stands_under_its_key(t, "json"@);
                assert(a->Object_0[i].0 == "json"@ && keys_stand_clear(a->Object_0[i].1));
                assert(b->Object_0[j].0 == "json"@ && keys_stand_clear(b->Object_0[j].1));
                let c = s[i].1;
                let d = t[j].1;
                assert(exact_bytes(a) + x =~= first + (exact_bytes(c) + x));
                assert(exact_bytes(b) + y =~= first + (exact_bytes(d) + y));
                tails_of_one_front(first, exact_bytes(c) + x, exact_bytes(d) + y);
                values_are_told_apart(c, d, x, y);
                assert(s[i].0 == "json"@ && t[j].0 == "json"@ && one_content(s[i].1, t[j].1));
            } else {
                let p = order_of(member_keys(s));
                let q = order_of(member_keys(t));
                assert(exact_bytes(a) + x =~= first + (member_bytes(s, p, 0) + x));
                assert(exact_bytes(b) + y =~= first + (member_bytes(t, q, 0) + y));
                tails_of_one_front(first, member_bytes(s, p, 0) + x, member_bytes(t, q, 0) + y);
                members_fit_in_the_size(s);
                members_fit_in_the_size(t);
                order_is_stable(member_keys(s));
                order_is_stable(member_keys(t));
                assert forall|k: int| 0 <= k < s.len() implies !((#[trigger] s[k]).0.len() > 0
                    && s[k].0[0] == '}') && keys_stand_clear(s[k].1) by {
                    assert(keys_stand_clear(a->Object_0[k].1));
                }
                assert forall|k: int| 0 <= k < t.len() implies !((#[trigger] t[k]).0.len() > 0
                    && t[k].0[0] == '}') && keys_stand_clear(t[k].1) by {
                    assert(keys_stand_clear(b->Object_0[k].1));
                }
                members_are_told_apart(s, p, t, q, 0, x, y);
                keyed_members_have_one_content(s, t);
            }
        },
        _ => {
            assert(exact_bytes(a) =~= first);
            assert(exact_bytes(b) =~= first);
            tails_of_one_front(first, x, y);
        },
    }
}

/// What is hashed of two values is the same only if they have one content.
pub proof fn different_contents_are_hashed_from_different_bytes(a: JsonView, b: JsonView)
    requires
        a.wf(),
        b.wf(),
        a.size() <= usize::MAX,
        b.size() <= usize::MAX,
        keys_stand_clear(a),
        keys_stand_clear(b),
        !one_content(a, b),
    ensures
        exact_bytes(a) != exact_bytes(b),
        forall|hash: u64| #[trigger] exact_hash(hash, a) == fnv(hash, exact_bytes(a)),
        forall|hash: u64| #[trigger] exact_hash(hash, b) == fnv(hash, exact_bytes(b)),
{
    assert forall|hash: u64| #[trigger] exact_hash(hash, a) == fnv(hash, exact_bytes(a)) by {
        the_hash_reads_the_bytes(hash, a);
    }
    assert forall|hash: u64| #[trigger] exact_hash(hash, b) == fnv(hash, exact_bytes(b)) by {
        the_hash_reads_the_bytes(hash, b);
    }
    if exact_bytes(a) == exact_bytes(b) {
        values_are_told_apart(a, b, Seq::empty(), Seq::empty());
    }
}

/// The digest of a call rests on what went in and on what came out: calls with one
/// result have one digest only if their arguments hash alike, and of the result
/// the digest reads bytes that are those of no other hash.
pub proof fn digests_keep_hashes_apart(a: JsonView, b: JsonView, result: JsonView, other: JsonView)
    ensures
        digest_of(a, result) == digest_of(b, result) ==> exact_hash(FNV_OFFSET_BASIS, a)
            == exact_hash(FNV_OFFSET_BASIS, b),
        digest_of(a, result) == fnv(
            FNV_OFFSET_BASIS,
            exact_bytes(a) + le_bytes(exact_hash(FNV_OFFSET_BASIS, result)),
        ),
        le_bytes(exact_hash(FNV_OFFSET_BASIS, result)) == le_bytes(
            exact_hash(FNV_OFFSET_BASIS, other),
        ) ==> exact_hash(FNV_OFFSET_BASIS, result) == exact_hash(FNV_OFFSET_BASIS, other),
{
    let x = exact_hash(FNV_OFFSET_BASIS, result);
    let y = exact_hash(FNV_OFFSET_BASIS, other);
    if digest_of(a, result) == digest_of(b, result) {
        hashes_stay_apart(
            exact_hash(FNV_OFFSET_BASIS, a),
            exact_hash(FNV_OFFSET_BASIS, b),
            le_bytes(x),
        );
    }
    the_hash_reads_the_bytes(FNV_OFFSET_BASIS, a);
    fnv_of_two_runs(FNV_OFFSET_BASIS, exact_bytes(a), le_bytes(x));
    if le_bytes(x) == le_bytes(y) {
        numbers_are_told_apart(x, y);
    }
}

} // verus!
