//! The order of texts, and the stable order of a list by its texts.

use vstd::prelude::*;
use vstd::relations::{sorted_by, total_ordering};
use vstd::seq_lib::{lemma_sorted_unique, to_multiset_build, to_multiset_insert};
use crate::text::{chars_of, texts};

verus! {

/// Whether a text stands at or before another: by the first character in
/// which they differ, and a text before what it begins.
pub open spec fn text_le(a: Seq<char>, b: Seq<char>) -> bool
    decreases a.len(),
{
    if a.len() == 0 {
        true
    } else if b.len() == 0 {
        false
    } else if a[0] != b[0] {
        (a[0] as int) < (b[0] as int)
    } else {
        text_le(a.drop_first(), b.drop_first())
    }
}

/// Of two texts, one stands at or before the other.
pub proof fn text_le_is_total(a: Seq<char>, b: Seq<char>)
    ensures
        text_le(a, b) || text_le(b, a),
    decreases a.len(),
{
    if a.len() > 0 && b.len() > 0 {
        if a[0] == b[0] {
            text_le_is_total(a.drop_first(), b.drop_first());
        }
    }
}

/// Two texts that stand at or before each other are one text.
pub proof fn text_le_is_antisymmetric(a: Seq<char>, b: Seq<char>)
    requires
        text_le(a, b),
        text_le(b, a),
    ensures
        a == b,
    decreases a.len(),
{
    if a.len() > 0 && b.len() > 0 {
        text_le_is_antisymmetric(a.drop_first(), b.drop_first());
        assert(a =~= seq![a[0]] + a.drop_first());
        assert(b =~= seq![b[0]] + b.drop_first());
    } else {
        assert(a =~= b);
    }
}

/// What stands at or before a text stands at or before all that follow it.
pub proof fn text_le_is_transitive(a: Seq<char>, b: Seq<char>, c: Seq<char>)
    requires
        text_le(a, b),
        text_le(b, c),
    ensures
        text_le(a, c),
    decreases a.len(),
{
    if a.len() > 0 && b.len() > 0 && c.len() > 0 && a[0] == b[0] && b[0] == c[0] {
        text_le_is_transitive(a.drop_first(), b.drop_first(), c.drop_first());
    }
}

fn code_point(c: char) -> (r: u32)
    ensures
        r as int == c as int,
{
    c as u32
}

/// Whether a text stands at or before another.
pub fn at_or_before(a: &str, b: &str) -> (r: bool)
    ensures
        r == text_le(a@, b@),
{
    let x = chars_of(a);
    let y = chars_of(b);
    let mut i: usize = 0;
    proof {
        assert(a@.skip(0) =~= a@);
        assert(b@.skip(0) =~= b@);
    }
    while i < x.len() && i < y.len() && x[i] == y[i]
        invariant
            0 <= i <= x@.len(),
            i <= y@.len(),
            x@ == a@,
            y@ == b@,
            text_le(a@, b@) == text_le(a@.skip(i as int), b@.skip(i as int)),
        decreases x@.len() - i,
    {
        proof {
            assert(a@.skip(i as int).drop_first() =~= a@.skip(i as int + 1));
            assert(b@.skip(i as int).drop_first() =~= b@.skip(i as int + 1));
        }
        i = i + 1;
    }
    if i == x.len() {
        true
    } else if i == y.len() {
        false
    } else {
        code_point(x[i]) < code_point(y[i])
    }
}

/// Where an entry with the given key goes among entries already in order:
/// behind all whose keys stand at or before it.
pub open spec fn slot(order: Seq<usize>, keys: Seq<Seq<char>>, key: Seq<char>) -> nat
    decreases order.len(),
{
    if order.len() == 0 || text_le(keys[order.last() as int], key) {
        order.len()
    } else {
        slot(order.drop_last(), keys, key)
    }
}

/// The places of a list's entries in the order of their keys; entries with one
/// key keep the order they had.
pub open spec fn order_of(keys: Seq<Seq<char>>) -> Seq<usize>
    decreases keys.len(),
{
    if keys.len() == 0 {
        Seq::empty()
    } else {
        let before = order_of(keys.drop_last());
        before.insert(
            slot(before, keys.drop_last(), keys.last()) as int,
            (keys.len() - 1) as usize,
        )
    }
}

/// Whether places stand in the order of their keys, those of one key in their
/// own order.
pub open spec fn in_order(order: Seq<usize>, keys: Seq<Seq<char>>) -> bool {
    forall|i: int, j: int|
        0 <= i < j < order.len() ==> {
            let a = #[trigger] order[i];
            let b = #[trigger] order[j];
            text_le(keys[a as int], keys[b as int]) && (keys[a as int] == keys[b as int] ==> a < b)
        }
}

proof fn slot_is_in_range(order: Seq<usize>, keys: Seq<Seq<char>>, key: Seq<char>)
    ensures
        slot(order, keys, key) <= order.len(),
        slot(order, keys, key) > 0 ==> text_le(
            keys[order[slot(order, keys, key) - 1] as int],
            key,
        ),
        forall|i: int|
            slot(order, keys, key) <= i < order.len() ==> !text_le(
                keys[#[trigger] order[i] as int],
                key,
            ),
    decreases order.len(),
{
    if !(order.len() == 0 || text_le(keys[order.last() as int], key)) {
        slot_is_in_range(order.drop_last(), keys, key);
        assert forall|i: int| slot(order, keys, key) <= i < order.len() implies !text_le(
            keys[#[trigger] order[i] as int],
            key,
        ) by {
            if i < order.len() - 1 {
                assert(order.drop_last()[i] == order[i]);
            }
        }
    }
}

proof fn slot_reads_only_known_keys(
    order: Seq<usize>,
    keys: Seq<Seq<char>>,
    more: Seq<Seq<char>>,
    key: Seq<char>,
)
    requires
        forall|i: int| 0 <= i < order.len() ==> (#[trigger] order[i]) < keys.len(),
        keys.len() <= more.len(),
        forall|i: int| 0 <= i < keys.len() ==> #[trigger] more[i] == keys[i],
    ensures
        slot(order, keys, key) == slot(order, more, key),
    decreases order.len(),
{
    if order.len() > 0 {
        assert(order[order.len() - 1] < keys.len());
        assert forall|i: int| 0 <= i < order.drop_last().len() implies (
        #[trigger] order.drop_last()[i]) < keys.len() by {
            assert(order[i] < keys.len());
        }
        slot_reads_only_known_keys(order.drop_last(), keys, more, key);
    }
}

/// The order of a list holds each of its places once, by key, and keeps the
/// order of entries with one key.
pub proof fn order_is_stable(keys: Seq<Seq<char>>)
    requires
        keys.len() <= usize::MAX,
    ensures
        order_of(keys).len() == keys.len(),
        order_of(keys).no_duplicates(),
        forall|i: int| 0 <= i < keys.len() ==> (#[trigger] order_of(keys)[i]) < keys.len(),
        in_order(order_of(keys), keys),
    decreases keys.len(),
{
    if keys.len() > 0 {
        let init = keys.drop_last();
        let key = keys.last();
        let before = order_of(init);
        let p = slot(before, init, key) as int;
        let last = (keys.len() - 1) as usize;
        let after = order_of(keys);
        order_is_stable(init);
        slot_is_in_range(before, init, key);
        assert(after == before.insert(p, last));
        assert forall|i: int| 0 <= i < keys.len() implies (#[trigger] after[i]) < keys.len() by {
            if i < p {
                assert(before[i] < init.len());
            } else if i > p {
                assert(before[i - 1] < init.len());
            }
        }
        assert forall|i: int, j: int| 0 <= i < j < after.len() implies ({
            let a = #[trigger] after[i];
            let b = #[trigger] after[j];
            a != b && text_le(keys[a as int], keys[b as int]) && (keys[a as int] == keys[b as int]
                ==> a < b)
        }) by {
            let i0 = if i < p { i } else { i - 1 };
            let j0 = if j < p { j } else { j - 1 };
            if i == p {
                assert(before[j0] < init.len());
                text_le_is_total(key, init[before[j0] as int]);
            } else if j == p {
                assert(before[i0] < init.len());
                assert(before[p - 1] < init.len());
                if i0 < p - 1 {
                    text_le_is_transitive(
                        init[before[i0] as int],
                        init[before[p - 1] as int],
                        key,
                    );
                }
            } else {
                assert(before[i0] < init.len());
                assert(before[j0] < init.len());
            }
        }
    }
}

/// The places of a list's entries in the order of their keys; entries with one
/// key keep the order they had.
#[verifier::loop_isolation(false)]
pub fn order_by_text(keys: &Vec<String>) -> (r: Vec<usize>)
    ensures
        r@ == order_of(texts(keys@)),
        r@.len() == keys@.len(),
        forall|i: int| 0 <= i < r@.len() ==> (#[trigger] r@[i]) < keys@.len(),
{
    let ghost all = texts(keys@);
    let mut order: Vec<usize> = Vec::new();
    let mut i: usize = 0;
    proof {
        assert(all.take(0) =~= Seq::<Seq<char>>::empty());
    }
    while i < keys.len()
        invariant
            0 <= i <= keys@.len(),
            order@ == order_of(all.take(i as int)),
            order@.len() == i,
            forall|j: int| 0 <= j < order@.len() ==> (#[trigger] order@[j]) < i,
        decreases keys@.len() - i,
    {
        let ghost known = all.take(i as int);
        let mut p: usize = order.len();
        proof {
            slot_reads_only_known_keys(order@, known, all, all[i as int]);
            assert(order@.take(p as int) =~= order@);
        }
        while p > 0 && !at_or_before(keys[order[p - 1]].as_str(), keys[i].as_str())
            invariant
                0 <= p <= order@.len(),
                slot(order@, all, all[i as int]) == slot(order@.take(p as int), all, all[i as int]),
            decreases p,
        {
            proof {
                assert(order@.take(p as int).drop_last() =~= order@.take(p as int - 1));
            }
            p = p - 1;
        }
        proof {
            assert(all.take(i as int + 1).drop_last() =~= known);
        }
        order.insert(p, i);
        i = i + 1;
    }
    proof {
        assert(all.take(all.len() as int) =~= all);
    }
    order
}

/// The entries of a list at the given places.
pub open spec fn arranged<T>(s: Seq<T>, order: Seq<usize>) -> Seq<T> {
    order.map_values(|p: usize| s[p as int])
}

/// Putting a list in the order of its keys only rearranges it.
pub proof fn order_only_rearranges<T>(s: Seq<T>, keys: Seq<Seq<char>>)
    requires
        s.len() == keys.len(),
        keys.len() <= usize::MAX,
    ensures
        arranged(s, order_of(keys)).to_multiset() == s.to_multiset(),
    decreases keys.len(),
{
    if keys.len() == 0 {
        assert(arranged(s, order_of(keys)) =~= s);
    } else {
        let init = keys.drop_last();
        let before = order_of(init);
        let p = slot(before, init, keys.last()) as int;
        order_is_stable(init);
        slot_is_in_range(before, init, keys.last());
        order_only_rearranges(s.drop_last(), init);
        let old_list = arranged(s.drop_last(), before);
        assert forall|i: int| 0 <= i < before.len() implies s.drop_last()[before[i] as int]
            == s[before[i] as int] by {
            assert(before[i] < init.len());
        }
        assert(arranged(s, order_of(keys)) =~= old_list.insert(p, s.last()));
        to_multiset_insert(old_list, p, s.last());
        to_multiset_build(s.drop_last(), s.last());
        assert(s =~= s.drop_last().push(s.last()));
    }
}

proof fn text_le_orders_totally()
    ensures
        total_ordering(|a: Seq<char>, b: Seq<char>| text_le(a, b)),
{
    let leq = |a: Seq<char>, b: Seq<char>| text_le(a, b);
    assert forall|a: Seq<char>| #[trigger] leq(a, a) by {
        text_le_is_total(a, a);
    }
    assert forall|a: Seq<char>, b: Seq<char>| #[trigger] leq(a, b) && #[trigger] leq(
        b,
        a,
    ) implies a == b by {
        text_le_is_antisymmetric(a, b);
    }
    assert forall|a: Seq<char>, b: Seq<char>, c: Seq<char>| #[trigger] leq(a, b) && #[trigger] leq(
        b,
        c,
    ) implies leq(a, c) by {
        text_le_is_transitive(a, b, c);
    }
    assert forall|a: Seq<char>, b: Seq<char>| #[trigger] leq(a, b) || #[trigger] leq(b, a) by {
        text_le_is_total(a, b);
    }
}

/// Texts put in order are the same list whatever order they came in.
pub proof fn sorted_texts_depend_on_the_multiset(a: Seq<Seq<char>>, b: Seq<Seq<char>>)
    requires
        a.to_multiset() == b.to_multiset(),
        a.len() <= usize::MAX,
        b.len() <= usize::MAX,
    ensures
        arranged(a, order_of(a)) == arranged(b, order_of(b)),
{
    let leq = |x: Seq<char>, y: Seq<char>| text_le(x, y);
    let x = arranged(a, order_of(a));
    let y = arranged(b, order_of(b));
    text_le_orders_totally();
    order_is_stable(a);
    order_is_stable(b);
    order_only_rearranges(a, a);
    order_only_rearranges(b, b);
    assert forall|i: int, j: int| 0 <= i < j < x.len() implies #[trigger] leq(x[i], x[j]) by {
        let p = order_of(a)[i];
        let q = order_of(a)[j];
    }
    assert forall|i: int, j: int| 0 <= i < j < y.len() implies #[trigger] leq(y[i], y[j]) by {
        let p = order_of(b)[i];
        let q = order_of(b)[j];
    }
    assert(sorted_by(x, leq));
    assert(sorted_by(y, leq));
    lemma_sorted_unique(x, y, leq);
}

/// Texts stand by their first difference, the smaller character first, and a text
/// stands before those that go on from it.
pub proof fn texts_stand_by_their_first_difference(a: Seq<char>, b: Seq<char>, i: int)
    requires
        0 <= i <= a.len(),
        i <= b.len(),
        a.take(i) == b.take(i),
    ensures
        i == a.len() ==> text_le(a, b),
        i == b.len() && i < a.len() ==> !text_le(a, b),
        i < a.len() && i < b.len() && (a[i] as int) < (b[i] as int) ==> text_le(a, b) && !text_le(
            b,
            a,
        ),
    decreases i,
{
    if i > 0 {
        assert(a.take(i)[0] == a[0] && b.take(i)[0] == b[0]);
        assert(a[0] == b[0]);
        let x = a.drop_first();
        let y = b.drop_first();
        assert(x.take(i - 1) =~= a.take(i).drop_first());
        assert(y.take(i - 1) =~= b.take(i).drop_first());
        texts_stand_by_their_first_difference(x, y, i - 1);
        texts_stand_by_their_first_difference(y, x, i - 1);
    }
}

} // verus!
