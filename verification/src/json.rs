//! A JSON value, and what two of them being equal means.

use vstd::prelude::*;
use crate::text::{
    decimal, decimal_text, numbers_are_read_back, parse_u64, text_eq, u64_of,
};

verus! {

/// A JSON value. A number is held by its text: the decimal digits of an
/// integer, or the shortest text of a floating-point number, which always
/// shows a fraction or an exponent. An object holds its members in order.
#[derive(Debug)]
pub enum Json {
    Null,
    Bool(bool),
    Number(String),
    String(String),
    Array(Vec<Json>),
    Object(Vec<(String, Json)>),
}

/// What a JSON value says.
pub enum JsonView {
    Null,
    Bool(bool),
    Number(Seq<char>),
    String(Seq<char>),
    Array(Seq<JsonView>),
    Object(Seq<(Seq<char>, JsonView)>),
}

/// What a JSON value says.
pub open spec fn json_view(j: Json) -> JsonView
    decreases j,
{
    match j {
        Json::Null => JsonView::Null,
        Json::Bool(b) => JsonView::Bool(b),
        Json::Number(n) => JsonView::Number(n@),
        Json::String(s) => JsonView::String(s@),
        Json::Array(v) => JsonView::Array(
            Seq::new(
                v@.len(),
                |i: int|
                    if 0 <= i < v@.len() {
                        json_view(v@[i])
                    } else {
                        JsonView::Null
                    },
            ),
        ),
        Json::Object(v) => JsonView::Object(
            Seq::new(
                v@.len(),
                |i: int|
                    if 0 <= i < v@.len() {
                        (v@[i].0@, json_view(v@[i].1))
                    } else {
                        (Seq::<char>::empty(), JsonView::Null)
                    },
            ),
        ),
    }
}

impl View for Json {
    type V = JsonView;

    open spec fn view(&self) -> JsonView {
        json_view(*self)
    }
}

impl DeepView for Json {
    type V = JsonView;

    open spec fn deep_view(&self) -> JsonView {
        json_view(*self)
    }
}

/// What the members of an array say.
pub open spec fn items_view(s: Seq<Json>) -> Seq<JsonView> {
    s.map_values(|j: Json| j@)
}

/// What the members of an object say.
pub open spec fn members_view(s: Seq<(String, Json)>) -> Seq<(Seq<char>, JsonView)> {
    s.map_values(|m: (String, Json)| (m.0@, m.1@))
}

pub broadcast proof fn array_view(v: Vec<Json>)
    ensures
        #[trigger] json_view(Json::Array(v)) == JsonView::Array(items_view(v@)),
{
    assert(json_view(Json::Array(v))->Array_0 =~= items_view(v@));
}

pub broadcast proof fn object_view(v: Vec<(String, Json)>)
    ensures
        #[trigger] json_view(Json::Object(v)) == JsonView::Object(members_view(v@)),
{
    assert(json_view(Json::Object(v))->Object_0 =~= members_view(v@));
}

pub broadcast group group_json_view {
    array_view,
    object_view,
}

impl JsonView {
    /// How much a value holds: one for each value in it and for each
    /// character of a string or a key.
    pub open spec fn size(self) -> nat
        decreases self,
    {
        match self {
            JsonView::String(s) => 1 + s.len(),
            JsonView::Array(s) => 1 + items_size(s),
            JsonView::Object(s) => 1 + members_size(s),
            _ => 1,
        }
    }

    /// No object in the value holds a key twice.
    pub open spec fn wf(self) -> bool
        decreases self,
    {
        match self {
            JsonView::Array(s) => forall|i: int| 0 <= i < s.len() ==> (#[trigger] s[i]).wf(),
            JsonView::Object(s) => {
                &&& distinct_keys(s)
                &&& forall|i: int| 0 <= i < s.len() ==> (#[trigger] s[i]).1.wf()
            },
            _ => true,
        }
    }

    /// The member an object holds under a key; nothing for any other value.
    pub open spec fn member(self, key: Seq<char>) -> Option<JsonView> {
        match self {
            JsonView::Object(s) => find(s, key),
            _ => None,
        }
    }

    /// The text of a string; nothing for any other value.
    pub open spec fn text(self) -> Option<Seq<char>> {
        match self {
            JsonView::String(s) => Some(s),
            _ => None,
        }
    }
}

pub open spec fn items_size(s: Seq<JsonView>) -> nat
    decreases s,
{
    if s.len() == 0 {
        0
    } else {
        items_size(s.drop_last()) + s.last().size()
    }
}

pub open spec fn members_size(s: Seq<(Seq<char>, JsonView)>) -> nat
    decreases s,
{
    if s.len() == 0 {
        0
    } else {
        members_size(s.drop_last()) + s.last().0.len() + s.last().1.size()
    }
}

/// No key stands twice.
pub open spec fn distinct_keys(s: Seq<(Seq<char>, JsonView)>) -> bool {
    forall|i: int, j: int| 0 <= i < j < s.len() ==> (#[trigger] s[i]).0 != (#[trigger] s[j]).0
}

/// The first member under a key.
pub open spec fn find(s: Seq<(Seq<char>, JsonView)>, key: Seq<char>) -> Option<JsonView>
    decreases s.len(),
{
    if s.len() == 0 {
        None
    } else if s[0].0 == key {
        Some(s[0].1)
    } else {
        find(s.drop_first(), key)
    }
}

/// A value holds more than each value in it.
pub proof fn item_is_smaller(s: Seq<JsonView>, i: int)
    requires
        0 <= i < s.len(),
    ensures
        s[i].size() <= items_size(s),
        s[i].size() < JsonView::Array(s).size(),
    decreases s.len(),
{
    if i < s.len() - 1 {
        item_is_smaller(s.drop_last(), i);
    }
}

/// A value holds more than each value in it.
pub proof fn member_is_smaller(s: Seq<(Seq<char>, JsonView)>, i: int)
    requires
        0 <= i < s.len(),
    ensures
        s[i].0.len() + s[i].1.size() <= members_size(s),
        s[i].1.size() < JsonView::Object(s).size(),
    decreases s.len(),
{
    if i < s.len() - 1 {
        member_is_smaller(s.drop_last(), i);
    }
}

/// Each value in a well-formed array is well formed.
pub proof fn item_is_well_formed(s: Seq<JsonView>, i: int)
    requires
        JsonView::Array(s).wf(),
        0 <= i < s.len(),
    ensures
        s[i].wf(),
{
    assert(JsonView::Array(s)->Array_0[i].wf());
}

/// Each value in a well-formed object is well formed.
pub proof fn member_is_well_formed(s: Seq<(Seq<char>, JsonView)>, i: int)
    requires
        JsonView::Object(s).wf(),
        0 <= i < s.len(),
    ensures
        s[i].1.wf(),
{
    assert(JsonView::Object(s)->Object_0[i].1.wf());
}

/// What is found under a key stands under it.
pub proof fn found_stands_under_its_key(s: Seq<(Seq<char>, JsonView)>, key: Seq<char>) -> (i: int)
    requires
        find(s, key) is Some,
    ensures
        0 <= i < s.len(),
        s[i].0 == key,
        find(s, key) == Some(s[i].1),
        s[i].1.size() < JsonView::Object(s).size(),
    decreases s.len(),
{
    if s[0].0 == key {
        member_is_smaller(s, 0);
        0
    } else {
        let j = found_stands_under_its_key(s.drop_first(), key);
        member_is_smaller(s, j + 1);
        j + 1
    }
}

/// Every key is found.
pub proof fn key_is_found(s: Seq<(Seq<char>, JsonView)>, i: int)
    requires
        0 <= i < s.len(),
    ensures
        find(s, s[i].0) is Some,
        distinct_keys(s) ==> find(s, s[i].0) == Some(s[i].1),
    decreases s.len(),
{
    if s[0].0 != s[i].0 {
        key_is_found(s.drop_first(), i - 1);
        assert(s.drop_first()[i - 1] == s[i]);
        if distinct_keys(s) {
            assert forall|a: int, b: int| 0 <= a < b < s.drop_first().len() implies (
            #[trigger] s.drop_first()[a]).0 != (#[trigger] s.drop_first()[b]).0 by {
                assert(s[a + 1].0 != s[b + 1].0);
            }
        }
    } else if i != 0 {
        assert(distinct_keys(s) ==> s[0].0 != s[i].0);
    }
}

/// The texts of the two floating-point zeros.
pub open spec fn is_zero_fraction(n: Seq<char>) -> bool {
    n == "0.0"@ || n == "-0.0"@
}

/// Two numbers are equal when their texts are, and the two floating-point
/// zeros are equal.
pub open spec fn number_eq(a: Seq<char>, b: Seq<char>) -> bool {
    a == b || (is_zero_fraction(a) && is_zero_fraction(b))
}

/// Equality of JSON values: arrays member by member, objects by key, whatever
/// the order of their members.
pub open spec fn json_eq(a: JsonView, b: JsonView) -> bool
    decreases a,
{
    match (a, b) {
        (JsonView::Null, JsonView::Null) => true,
        (JsonView::Bool(x), JsonView::Bool(y)) => x == y,
        (JsonView::Number(x), JsonView::Number(y)) => number_eq(x, y),
        (JsonView::String(x), JsonView::String(y)) => x == y,
        (JsonView::Array(x), JsonView::Array(y)) => {
            &&& x.len() == y.len()
            &&& forall|i: int| 0 <= i < x.len() ==> json_eq(#[trigger] x[i], y[i])
        },
        (JsonView::Object(x), JsonView::Object(y)) => {
            &&& x.len() == y.len()
            &&& forall|i: int|
                0 <= i < x.len() ==> match find(y, (#[trigger] x[i]).0) {
                    Some(other) => json_eq(x[i].1, other),
                    None => false,
                }
        },
        _ => false,
    }
}

/// A value equals itself.
pub proof fn json_eq_is_reflexive(a: JsonView)
    requires
        a.wf(),
    ensures
        json_eq(a, a),
    decreases a,
{
    match a {
        JsonView::Array(s) => {
            assert forall|i: int| 0 <= i < s.len() implies json_eq(#[trigger] s[i], s[i]) by {
                json_eq_is_reflexive(s[i]);
            }
        },
        JsonView::Object(s) => {
            assert forall|i: int| 0 <= i < s.len() implies match find(s, (#[trigger] s[i]).0) {
                Some(other) => json_eq(s[i].1, other),
                None => false,
            } by {
                key_is_found(s, i);
                json_eq_is_reflexive(s[i].1);
            }
        },
        _ => {},
    }
}

/// What is found under a key is the value of the first member with that key, and
/// nothing is found exactly where no member has it.
pub proof fn the_first_member_is_found(s: Seq<(Seq<char>, JsonView)>, key: Seq<char>)
    ensures
        forall|i: int|
            0 <= i < s.len() && (#[trigger] s[i]).0 == key && (forall|j: int|
                0 <= j < i ==> (#[trigger] s[j]).0 != key) ==> find(s, key) == Some(s[i].1),
        (forall|i: int| 0 <= i < s.len() ==> (#[trigger] s[i]).0 != key) <==> find(s, key) is None,
    decreases s.len(),
{
    if s.len() > 0 && s[0].0 != key {
        let rest = s.drop_first();
        the_first_member_is_found(rest, key);
        assert forall|i: int|
            0 <= i < s.len() && (#[trigger] s[i]).0 == key && (forall|j: int|
                0 <= j < i ==> (#[trigger] s[j]).0 != key) implies find(s, key) == Some(s[i].1) by {
            assert(rest[i - 1] == s[i]);
            assert forall|j: int| 0 <= j < i - 1 implies (#[trigger] rest[j]).0 != key by {
                assert(s[j + 1].0 != key);
            }
        }
        if forall|i: int| 0 <= i < s.len() ==> (#[trigger] s[i]).0 != key {
            assert forall|i: int| 0 <= i < rest.len() implies (#[trigger] rest[i]).0 != key by {
                assert(s[i + 1].0 != key);
            }
        }
        if find(rest, key) is None {
            assert forall|i: int| 0 <= i < s.len() implies (#[trigger] s[i]).0 != key by {
                if i > 0 {
                    assert(rest[i - 1] == s[i]);
                }
            }
        }
    }
}

/// Plain values are equal to nothing but themselves, the two floating-point zeros
/// aside, and values of different kinds are never equal.
pub proof fn plain_values_equal_themselves(a: JsonView, b: JsonView)
    ensures
        a is Null || a is Bool || a is String ==> (json_eq(a, b) <==> a == b),
        b is Null || b is Bool || b is String ==> (json_eq(a, b) <==> a == b),
        a matches JsonView::Number(x) ==> b matches JsonView::Number(y) ==> (json_eq(a, b) <==> x
            == y || ((x == "0.0"@ || x == "-0.0"@) && (y == "0.0"@ || y == "-0.0"@))),
        a is Number && !(b is Number) ==> !json_eq(a, b),
        a is Array && !(b is Array) ==> !json_eq(a, b),
        a is Object && !(b is Object) ==> !json_eq(a, b),
{
}

/// Arrays that differ in one member alone are equal exactly when those two members
/// are, wherever they stand, and arrays of different lengths never are.
pub proof fn every_item_is_compared(s: Seq<JsonView>, i: int, v: JsonView, t: Seq<JsonView>)
    requires
        JsonView::Array(s).wf(),
        0 <= i < s.len(),
    ensures
        json_eq(JsonView::Array(s), JsonView::Array(s.update(i, v))) <==> json_eq(s[i], v),
        s.len() != t.len() ==> !json_eq(JsonView::Array(s), JsonView::Array(t)),
{
    let a = JsonView::Array(s);
    let u = s.update(i, v);
    if json_eq(a, JsonView::Array(u)) {
        assert(json_eq(a->Array_0[i], u[i]));
    }
    if json_eq(s[i], v) {
        assert forall|j: int| 0 <= j < s.len() implies json_eq(#[trigger] s[j], u[j]) by {
            if j != i {
                assert(a->Array_0[j].wf());
                json_eq_is_reflexive(s[j]);
            }
        }
    }
}

/// Objects are equal exactly when they hold equally many members and the value
/// under each key of the first equals the value under that key in the second.
pub proof fn every_member_is_compared(
    x: Seq<(Seq<char>, JsonView)>,
    y: Seq<(Seq<char>, JsonView)>,
    i: int,
)
    requires
        distinct_keys(x),
        0 <= i < x.len(),
        json_eq(JsonView::Object(x), JsonView::Object(y)),
    ensures
        x.len() == y.len(),
        JsonView::Object(y).member(x[i].0) is Some,
        json_eq(x[i].1, JsonView::Object(y).member(x[i].0)->0),
{
    let a = JsonView::Object(x);
    assert(match find(y, (a->Object_0[i]).0) {
        Some(other) => json_eq(a->Object_0[i].1, other),
        None => false,
    });
}

/// Two JSON values say the same only if they are of one kind and agree in all
/// they hold, member by member.
pub proof fn values_say_all_they_hold(a: Json, b: Json)
    requires
        a@ == b@,
    ensures
        match (a, b) {
            (Json::Null, Json::Null) => true,
            (Json::Bool(x), Json::Bool(y)) => x == y,
            (Json::Number(x), Json::Number(y)) => x@ == y@,
            (Json::String(x), Json::String(y)) => x@ == y@,
            (Json::Array(x), Json::Array(y)) => x@.len() == y@.len() && forall|i: int|
                0 <= i < x@.len() ==> (#[trigger] x@[i])@ == y@[i]@,
            (Json::Object(x), Json::Object(y)) => x@.len() == y@.len() && forall|i: int|
                0 <= i < x@.len() ==> (#[trigger] x@[i]).0@ == y@[i].0@ && x@[i].1@ == y@[i].1@,
            _ => false,
        },
{
    broadcast use group_json_view;

    match (a, b) {
        (Json::Array(x), Json::Array(y)) => {
            let s = items_view(x@);
            let t = items_view(y@);
            assert(s == t);
            assert forall|i: int| 0 <= i < x@.len() implies (#[trigger] x@[i])@ == y@[i]@ by {
                assert(s[i] == t[i]);
            }
        },
        (Json::Object(x), Json::Object(y)) => {
            let s = members_view(x@);
            let t = members_view(y@);
            assert(s == t);
            assert forall|i: int| 0 <= i < x@.len() implies (#[trigger] x@[i]).0@ == y@[i].0@
                && x@[i].1@ == y@[i].1@ by {
                assert(s[i] == t[i]);
            }
        },
        _ => {},
    }
}

fn number_equal(a: &String, b: &String) -> (r: bool)
    ensures
        r == number_eq(a@, b@),
{
    text_eq(a, b) || ((text_eq(a, "0.0") || text_eq(a, "-0.0")) && (text_eq(b, "0.0") || text_eq(
        b,
        "-0.0",
    )))
}

/// The first member under a key.
pub fn find_member<'a>(members: &'a Vec<(String, Json)>, key: &str) -> (r: Option<&'a Json>)
    ensures
        match r {
            Some(v) => find(members_view(members@), key@) == Some(v@),
            None => find(members_view(members@), key@) is None,
        },
        r matches Some(v) ==> v@.size() < JsonView::Object(members_view(members@)).size(),
        r matches Some(v) ==> (JsonView::Object(members_view(members@)).wf() ==> v@.wf()),
{
    let ghost all = members_view(members@);
    let mut i: usize = 0;
    proof {
        assert(all.subrange(0, all.len() as int) =~= all);
    }
    while i < members.len()
        invariant
            0 <= i <= members@.len(),
            all == members_view(members@),
            find(all, key@) == find(all.subrange(i as int, all.len() as int), key@),
        decreases members@.len() - i,
    {
        let ghost rest = all.subrange(i as int, all.len() as int);
        proof {
            assert(rest[0] == all[i as int]);
            assert(rest.drop_first() =~= all.subrange(i as int + 1, all.len() as int));
        }
        if text_eq(&members[i].0, key) {
            proof {
                member_is_smaller(all, i as int);
                if JsonView::Object(all).wf() {
                    assert(all[i as int].1.wf());
                }
            }
            return Some(&members[i].1);
        }
        i = i + 1;
    }
    None
}

impl Json {
    /// Whether two values are equal.
    #[verifier::loop_isolation(false)]
    pub fn equals(&self, other: &Json) -> (r: bool)
        ensures
            r == json_eq(self@, other@),
        decreases self@.size(),
    {
        broadcast use group_json_view;

        match (self, other) {
            (Json::Null, Json::Null) => true,
            (Json::Bool(x), Json::Bool(y)) => *x == *y,
            (Json::Number(x), Json::Number(y)) => number_equal(x, y),
            (Json::String(x), Json::String(y)) => text_eq(x, y),
            (Json::Array(x), Json::Array(y)) => {
                if x.len() != y.len() {
                    return false;
                }
                let mut i: usize = 0;
                while i < x.len()
                    invariant
                        0 <= i <= x@.len(),
                        forall|j: int|
                            0 <= j < i ==> json_eq(#[trigger] items_view(x@)[j], items_view(y@)[j]),
                    decreases x@.len() - i,
                {
                    proof {
                        item_is_smaller(items_view(x@), i as int);
                    }
                    if !x[i].equals(&y[i]) {
                        assert(!json_eq(items_view(x@)[i as int], items_view(y@)[i as int]));
                        return false;
                    }
                    i = i + 1;
                }
                true
            },
            (Json::Object(x), Json::Object(y)) => {
                if x.len() != y.len() {
                    return false;
                }
                let ghost mx = members_view(x@);
                let ghost my = members_view(y@);
                let mut i: usize = 0;
                while i < x.len()
                    invariant
                        0 <= i <= x@.len(),
                        forall|j: int|
                            0 <= j < i ==> match find(my, (#[trigger] mx[j]).0) {
                                Some(o) => json_eq(mx[j].1, o),
                                None => false,
                            },
                    decreases x@.len() - i,
                {
                    proof {
                        member_is_smaller(mx, i as int);
                    }
                    assert(mx[i as int] == (x@[i as int].0@, x@[i as int].1@));
                    match find_member(y, &x[i].0) {
                        Some(o) => {
                            if !x[i].1.equals(o) {
                                return false;
                            }
                        },
                        None => {
                            return false;
                        },
                    }
                    i = i + 1;
                }
                true
            },
            _ => false,
        }
    }

    /// The member under a key, where the value is an object that has one.
    pub fn get(&self, key: &str) -> (r: Option<&Json>)
        ensures
            match r {
                Some(v) => self@.member(key@) == Some(v@),
                None => self@.member(key@) is None,
            },
            r matches Some(v) ==> v@.size() < self@.size() && (self@.wf() ==> v@.wf()),
    {
        broadcast use group_json_view;

        match self {
            Json::Object(members) => find_member(members, key),
            _ => None,
        }
    }

    /// The text of a string.
    pub fn as_str(&self) -> (r: Option<&str>)
        ensures
            match r {
                Some(s) => self@.text() == Some(s@),
                None => self@.text() is None,
            },
    {
        match self {
            Json::String(s) => Some(s.as_str()),
            _ => None,
        }
    }

    /// Whether the value is null.
    pub fn is_null(&self) -> (r: bool)
        ensures
            r == (self@ is Null),
    {
        match self {
            Json::Null => true,
            _ => false,
        }
    }

    /// The number, where the value is a whole one that fits in 64 bits and is
    /// not negative.
    pub fn as_u64(&self) -> (r: Option<u64>)
        ensures
            r == self@.number_u64(),
    {
        match self {
            Json::Number(n) => parse_u64(n.as_str()),
            _ => None,
        }
    }

    /// Whether the value is a string holding `text`.
    pub fn is_text(&self, text: &str) -> (r: bool)
        ensures
            r == (self@ == JsonView::String(text@)),
    {
        match self {
            Json::String(s) => text_eq(s.as_str(), text),
            _ => false,
        }
    }

    /// A whole number.
    pub fn from_u64(n: u64) -> (r: Json)
        ensures
            r@ == JsonView::Number(decimal(n as nat)),
    {
        Json::Number(decimal_text(n))
    }

    /// A string.
    pub fn text(s: &str) -> (r: Json)
        ensures
            r@ == JsonView::String(s@),
    {
        Json::String(s.to_owned())
    }

    /// Puts a member into an object, over the one its key had.
    /// Any other value stays as it is.
    #[verifier::loop_isolation(false)]
    pub fn insert(&mut self, key: String, value: Json)
        ensures
            final(self)@ == with_member(old(self)@, key@, value@),
    {
        broadcast use group_json_view;

        match self {
            Json::Object(members) => {
                let ghost before = members_view(members@);
                let ghost was = *members;
                let mut i: usize = 0;
                while i < members.len()
                    invariant
                        0 <= i <= members@.len(),
                        *members == was,
                        forall|j: int| 0 <= j < i ==> (#[trigger] before[j]).0 != key@,
                    decreases members@.len() - i,
                {
                    if text_eq(&members[i].0, &key) {
                        members.set(i, (key, value));
                        proof {
                            first_key_is_its_position(before, key@, i as int);
                            assert(members_view(members@) =~= before.update(
                                i as int,
                                (key@, value@),
                            ));
                        }
                        return;
                    }
                    proof {
                        assert(before[i as int].0 != key@);
                    }
                    i = i + 1;
                }
                members.push((key, value));
                proof {
                    no_key_no_position(before, key@);
                    assert(members_view(members@) =~= before.push((key@, value@)));
                }
            },
            _ => {},
        }
    }
}

impl JsonView {
    /// The whole number in a value, where it is one that fits in 64 bits.
    pub open spec fn number_u64(self) -> Option<u64> {
        match self {
            JsonView::Number(n) => u64_of(n),
            _ => None,
        }
    }
}

/// Where a key stands first; the number of members where it does not.
pub open spec fn position(s: Seq<(Seq<char>, JsonView)>, key: Seq<char>) -> nat
    decreases s.len(),
{
    if s.len() == 0 || s[0].0 == key {
        0
    } else {
        1 + position(s.drop_first(), key)
    }
}

proof fn first_key_is_its_position(s: Seq<(Seq<char>, JsonView)>, key: Seq<char>, i: int)
    requires
        0 <= i < s.len(),
        s[i].0 == key,
        forall|j: int| 0 <= j < i ==> (#[trigger] s[j]).0 != key,
    ensures
        position(s, key) == i,
    decreases s.len(),
{
    if i > 0 {
        assert(s[0].0 != key);
        assert forall|j: int| 0 <= j < i - 1 implies (#[trigger] s.drop_first()[j]).0 != key by {
            assert(s[j + 1].0 != key);
        }
        first_key_is_its_position(s.drop_first(), key, i - 1);
    }
}

proof fn no_key_no_position(s: Seq<(Seq<char>, JsonView)>, key: Seq<char>)
    requires
        forall|j: int| 0 <= j < s.len() ==> (#[trigger] s[j]).0 != key,
    ensures
        position(s, key) == s.len(),
    decreases s.len(),
{
    if s.len() > 0 {
        assert(s[0].0 != key);
        assert forall|j: int| 0 <= j < s.drop_first().len() implies (
        #[trigger] s.drop_first()[j]).0 != key by {
            assert(s[j + 1].0 != key);
        }
        no_key_no_position(s.drop_first(), key);
    }
}

/// An object with a member put in: in the place of the one its key had, or
/// behind the others. Any other value stays as it is.
pub open spec fn with_member(v: JsonView, key: Seq<char>, value: JsonView) -> JsonView {
    match v {
        JsonView::Object(s) => {
            let i = position(s, key);
            JsonView::Object(
                if i < s.len() {
                    s.update(i as int, (key, value))
                } else {
                    s.push((key, value))
                },
            )
        },
        _ => v,
    }
}

/// A member that is put in is found under its key, the others are found as they
/// were, and no key stands twice that did not before; what is no object stays as
/// it is.
pub proof fn members_are_put_in(
    s: Seq<(Seq<char>, JsonView)>,
    key: Seq<char>,
    value: JsonView,
    other: Seq<char>,
)
    requires
        distinct_keys(s),
    ensures
        ({
            let o = JsonView::Object(s);
            let w = with_member(o, key, value);
            &&& w.member(key) == Some(value)
            &&& other != key ==> w.member(other) == o.member(other)
            &&& w is Object && distinct_keys(w->Object_0)
            &&& o.member(key) is Some ==> w->Object_0.len() == s.len()
            &&& o.member(key) is None ==> w->Object_0 == s.push((key, value))
        }),
        !(value is Object) ==> with_member(value, key, value) == value,
{
    let o = JsonView::Object(s);
    let w = with_member(o, key, value);
    let t = w->Object_0;
    the_first_member_is_found(s, key);
    the_first_member_is_found(s, other);
    the_first_member_is_found(t, key);
    the_first_member_is_found(t, other);
    if find(s, key) is Some {
        let i = found_stands_under_its_key(s, key);
        assert forall|j: int| 0 <= j < i implies (#[trigger] s[j]).0 != key by {
            assert(s[j].0 != s[i].0);
        }
        first_key_is_its_position(s, key, i);
        assert(t =~= s.update(i, (key, value)));
        assert forall|a: int, b: int| 0 <= a < b < t.len() implies (#[trigger] t[a]).0 != (
        #[trigger] t[b]).0 by {
            assert(s[a].0 != s[b].0);
        }
        assert(t[i].0 == key);
        assert forall|j: int| 0 <= j < i implies (#[trigger] t[j]).0 != key by {
            assert(s[j].0 != key);
        }
        if other != key {
            if find(s, other) is Some {
                let k = found_stands_under_its_key(s, other);
                assert(t[k] == s[k]);
                assert forall|j: int| 0 <= j < k implies (#[trigger] t[j]).0 != other by {
                    assert(t[j].0 != t[k].0);
                }
            } else {
                assert forall|j: int| 0 <= j < t.len() implies (#[trigger] t[j]).0 != other by {
                    assert(s[j].0 != other);
                }
            }
        }
    } else {
        assert forall|j: int| 0 <= j < s.len() implies (#[trigger] s[j]).0 != key by {}
        no_key_no_position(s, key);
        assert(t =~= s.push((key, value)));
        let n = s.len() as int;
        assert(t[n].0 == key);
        assert forall|j: int| 0 <= j < n implies (#[trigger] t[j]).0 != key by {
            assert(s[j].0 != key);
        }
        assert forall|a: int, b: int| 0 <= a < b < t.len() implies (#[trigger] t[a]).0 != (
        #[trigger] t[b]).0 by {
            if b < n {
                assert(s[a].0 != s[b].0);
            }
        }
        if other != key {
            if find(s, other) is Some {
                let k = found_stands_under_its_key(s, other);
                assert(t[k] == s[k]);
                assert forall|j: int| 0 <= j < k implies (#[trigger] t[j]).0 != other by {
                    assert(t[j].0 != t[k].0);
                }
            } else {
                assert forall|j: int| 0 <= j < t.len() implies (#[trigger] t[j]).0 != other by {
                    if j < n {
                        assert(s[j].0 != other);
                    }
                }
            }
        }
    }
}

impl Clone for Json {
    #[verifier::loop_isolation(false)]
    fn clone(&self) -> (r: Json)
        ensures
            r@ == self@,
        decreases self@.size(),
    {
        broadcast use group_json_view;

        match self {
            Json::Null => Json::Null,
            Json::Bool(b) => Json::Bool(*b),
            Json::Number(n) => Json::Number(n.clone()),
            Json::String(s) => Json::String(s.clone()),
            Json::Array(items) => {
                let mut out: Vec<Json> = Vec::new();
                let mut i: usize = 0;
                while i < items.len()
                    invariant
                        0 <= i <= items@.len(),
                        items_view(out@) == items_view(items@).take(i as int),
                    decreases items@.len() - i,
                {
                    proof {
                        item_is_smaller(items_view(items@), i as int);
                    }
                    let ghost prev = out@;
                    out.push(items[i].clone());
                    proof {
                        assert(items_view(out@) =~= items_view(prev).push(items@[i as int]@));
                        assert(items_view(items@).take(i as int + 1) =~= items_view(items@).take(
                            i as int,
                        ).push(items@[i as int]@));
                    }
                    i = i + 1;
                }
                proof {
                    assert(items_view(items@).take(items@.len() as int) =~= items_view(items@));
                }
                Json::Array(out)
            },
            Json::Object(members) => {
                let mut out: Vec<(String, Json)> = Vec::new();
                let mut i: usize = 0;
                while i < members.len()
                    invariant
                        0 <= i <= members@.len(),
                        members_view(out@) == members_view(members@).take(i as int),
                    decreases members@.len() - i,
                {
                    proof {
                        member_is_smaller(members_view(members@), i as int);
                    }
                    let ghost prev = out@;
                    out.push((members[i].0.clone(), members[i].1.clone()));
                    proof {
                        let m = members@[i as int];
                        assert(members_view(out@) =~= members_view(prev).push((m.0@, m.1@)));
                        assert(members_view(members@).take(i as int + 1) =~= members_view(
                            members@,
                        ).take(i as int).push((m.0@, m.1@)));
                    }
                    i = i + 1;
                }
                proof {
                    assert(members_view(members@).take(members@.len() as int) =~= members_view(
                        members@,
                    ));
                }
                Json::Object(out)
            },
        }
    }
}

impl PartialEq for Json {
    fn eq(&self, other: &Json) -> (r: bool) {
        self.equals(other)
    }
}

impl vstd::std_specs::cmp::PartialEqSpecImpl for Json {
    open spec fn obeys_eq_spec() -> bool {
        true
    }

    open spec fn eq_spec(&self, other: &Json) -> bool {
        json_eq(self@, other@)
    }
}

/// A value that may be missing.
pub(crate) fn json_clone(a: &Option<Json>) -> (r: Option<Json>)
    ensures
        r.deep_view() == a.deep_view(),
{
    match a {
        Some(v) => Some(v.clone()),
        None => None,
    }
}

/// `serde_json::Value`: a JSON document as serde_json holds it.
#[verifier::external_type_specification]
#[verifier::external_body]
pub struct ExValue(serde_json::Value);

/// The value that serde_json reads from a text; nothing where it refuses the
/// text.
pub uninterp spec fn parsed_json(text: Seq<char>) -> Option<JsonView>;

/// The compact text that serde_json writes for a value.
pub uninterp spec fn rendered_json(value: JsonView) -> Seq<char>;

/// A `serde_json::Value` variant by variant; a `serde_json::Number` by the
/// text its `to_string` gives. Nothing is claimed of the result here: see
/// [`parse_json`].
#[verifier::external_body]
fn json_of_value(value: serde_json::Value) -> (r: Json) {
    match value {
        serde_json::Value::Null => Json::Null,
        serde_json::Value::Bool(b) => Json::Bool(b),
        serde_json::Value::Number(n) => Json::Number(n.to_string()),
        serde_json::Value::String(s) => Json::String(s),
        serde_json::Value::Array(v) => Json::Array(v.into_iter().map(json_of_value).collect()),
        serde_json::Value::Object(m) => Json::Object(
            m.into_iter().map(|(k, v)| (k, json_of_value(v))).collect(),
        ),
    }
}

/// A number as a `serde_json::Value`: the text is read by std's `parse`, as an
/// integer where it is one and otherwise to the nearest float, for
/// `serde_json::Number`'s `from_f64`. A text that is no finite number becomes
/// null. Nothing is claimed of the result here: see [`render_json`].
#[verifier::external_body]
fn value_of_number(text: &str) -> (r: serde_json::Value) {
    match (text.parse::<u64>(), text.parse::<i64>()) {
        (Ok(n), _) => serde_json::Value::from(n),
        (_, Ok(n)) => serde_json::Value::from(n),
        _ => text.parse().ok().and_then(serde_json::Number::from_f64).map_or(
            serde_json::Value::Null,
            serde_json::Value::Number,
        ),
    }
}

/// The same value as a `serde_json::Value`, variant by variant. Nothing is
/// claimed of the result here: see [`render_json`].
#[verifier::external_body]
fn value_of_json(value: &Json) -> (r: serde_json::Value) {
    match value {
        Json::Null => serde_json::Value::Null,
        Json::Bool(b) => serde_json::Value::Bool(*b),
        Json::Number(n) => value_of_number(n),
        Json::String(s) => serde_json::Value::String(s.clone()),
        Json::Array(v) => serde_json::Value::Array(v.iter().map(value_of_json).collect()),
        Json::Object(m) => serde_json::Value::Object(
            m.iter().map(|(k, v)| (k.clone(), value_of_json(v))).collect(),
        ),
    }
}

/// `serde_json::from_str` into a `serde_json::Value`. What it reads is named
/// by [`parsed_json`]. Beside that: the map that holds an object's members
/// holds a key once, and a document is written with at least one character
/// for each value in it and for each character of its strings and keys.
#[verifier::external_body]
pub(crate) fn parse_json(text: &str) -> (r: Option<Json>)
    ensures
        match r {
            Some(v) => parsed_json(text@) == Some(v@),
            None => parsed_json(text@) is None,
        },
        r matches Some(v) ==> v@.wf() && v@.size() <= text@.len(),
{
    serde_json::from_str::<serde_json::Value>(text).ok().map(json_of_value)
}

/// `serde_json::Value`'s `to_string`: the compact text of a document, named by
/// [`rendered_json`].
#[verifier::external_body]
pub(crate) fn render_json(value: &Json) -> (r: String)
    ensures
        r@ == rendered_json(value@),
{
    value_of_json(value).to_string()
}

/// A value has a text only if it is a string and a whole number only if it is a
/// number written in digits; every whole number is read back from the number that
/// writes it; and only objects have members.
pub proof fn values_are_read_by_kind(v: JsonView, n: u64, key: Seq<char>)
    ensures
        v.text() is Some <==> v is String,
        v matches JsonView::String(s) ==> v.text() == Some(s),
        v.number_u64() is Some ==> v is Number,
        JsonView::Number(decimal(n as nat)).number_u64() == Some(n),
        v.member(key) is Some ==> v is Object,
{
    numbers_are_read_back(n, n, decimal(n as nat));
}

} // verus!
