//! The canonical form of captured values: collections without an order of their
//! own are written in one order, and what is present but empty is told apart
//! from what is absent.

use vstd::prelude::*;
use crate::json::{group_json_view, items_view, members_view, Json, JsonView};
use crate::text::{chars_of, text_eq, text_of};

verus! {

/// A type's name without the references before it.
pub open spec fn dereferenced(name: Seq<char>) -> Seq<char>
    decreases name.len(),
{
    if name.len() > 0 && name[0] == '&' {
        dereferenced(name.drop_first())
    } else {
        name
    }
}

/// A name up to its generic arguments.
pub open spec fn before_arguments(name: Seq<char>) -> Seq<char>
    decreases name.len(),
{
    if name.len() == 0 || name[0] == '<' {
        Seq::empty()
    } else {
        seq![name[0]] + before_arguments(name.drop_first())
    }
}

/// The path of a type, without references and generic arguments.
pub open spec fn type_path(name: Seq<char>) -> Seq<char> {
    before_arguments(dereferenced(name))
}

proof fn before_arguments_ends(name: Seq<char>, i: int)
    requires
        0 <= i <= name.len(),
        i < name.len() ==> name[i] == '<',
        forall|j: int| 0 <= j < i ==> (#[trigger] name[j]) != '<',
    ensures
        before_arguments(name) == name.take(i),
    decreases i,
{
    if i == 0 {
        assert(name.take(0) =~= Seq::<char>::empty());
    } else {
        assert(name[0] != '<');
        let rest = name.drop_first();
        assert forall|j: int| 0 <= j < i - 1 implies (#[trigger] rest[j]) != '<' by {
            assert(name[j + 1] != '<');
        }
        before_arguments_ends(rest, i - 1);
        assert(seq![name[0]] + rest.take(i - 1) =~= name.take(i));
    }
}

/// The path of a type.
#[verifier::loop_isolation(false)]
fn path_of(name_of_type: &str) -> (r: String)
    ensures
        r@ == type_path(name_of_type@),
{
    let chars = chars_of(name_of_type);
    let ghost all = name_of_type@;
    let mut from: usize = 0;
    proof {
        assert(all.skip(0) =~= all);
    }
    while from < chars.len() && chars[from] == '&'
        invariant
            0 <= from <= chars@.len(),
            dereferenced(all) == dereferenced(all.skip(from as int)),
        decreases chars@.len() - from,
    {
        proof {
            assert(all.skip(from as int)[0] == all[from as int]);
            assert(all.skip(from as int).drop_first() =~= all.skip(from as int + 1));
        }
        from = from + 1;
    }
    let ghost name = all.skip(from as int);
    proof {
        if from < chars.len() {
            assert(name[0] == all[from as int]);
        }
        assert(dereferenced(all) == name);
    }
    let mut to: usize = from;
    while to < chars.len() && chars[to] != '<'
        invariant
            from <= to <= chars@.len(),
            forall|j: int| 0 <= j < to - from ==> (#[trigger] name[j]) != '<',
        decreases chars@.len() - to,
    {
        proof {
            assert(name[to - from] == all[to as int]);
        }
        to = to + 1;
    }
    proof {
        if to < chars.len() {
            assert(name[to - from] == all[to as int]);
        }
        before_arguments_ends(name, to - from);
        assert(all.subrange(from as int, to as int) =~= name.take(to - from));
    }
    text_of(&chars, from, to)
}

/// Whether a type is written as a sequence that has no order: a hash set.
pub open spec fn unordered_sequence_type(name: Seq<char>) -> bool {
    type_path(name) == "std::collections::hash::set::HashSet"@ || type_path(name)
        == "hashbrown::set::HashSet"@
}

/// Whether a type is written as a map whose keys have no order: a hash map.
pub open spec fn unordered_map_type(name: Seq<char>) -> bool {
    type_path(name) == "std::collections::hash::map::HashMap"@ || type_path(name)
        == "hashbrown::map::HashMap"@
}

/// Whether a type is written as a sequence that has no order.
pub fn is_unordered_sequence(name_of_type: &str) -> (r: bool)
    ensures
        r == unordered_sequence_type(name_of_type@),
{
    let path = path_of(name_of_type);
    text_eq(path.as_str(), "std::collections::hash::set::HashSet") || text_eq(
        path.as_str(),
        "hashbrown::set::HashSet",
    )
}

/// Whether a type is written as a map whose keys have no order.
pub fn is_unordered_map(name_of_type: &str) -> (r: bool)
    ensures
        r == unordered_map_type(name_of_type@),
{
    let path = path_of(name_of_type);
    text_eq(path.as_str(), "std::collections::hash::map::HashMap") || text_eq(
        path.as_str(),
        "hashbrown::map::HashMap",
    )
}

/// What is known of the value at a place before it is written: whether it is,
/// by its type, a collection without an order.
#[derive(Debug, Clone, Copy, PartialEq, Eq, Structural)]
pub struct Canonical {
    pub unordered: bool,
    pub unordered_map: bool,
}

impl Canonical {
    /// What the name of a type says.
    pub fn for_type(name_of_type: &str) -> (r: Canonical)
        ensures
            r.unordered == unordered_sequence_type(name_of_type@),
            r.unordered_map == unordered_map_type(name_of_type@),
    {
        Canonical {
            unordered: is_unordered_sequence(name_of_type),
            unordered_map: is_unordered_map(name_of_type),
        }
    }

    /// A place whose order always counts.
    pub fn positional() -> (r: Canonical)
        ensures
            !r.unordered,
            !r.unordered_map,
    {
        Canonical { unordered: false, unordered_map: false }
    }
}

/// The key of the object that stands for what is present and would be written
/// as null.
pub const PRESENT_KEY: &'static str = "deja:some";

/// Whether a value is an object with the marker's key alone.
pub open spec fn present_marker(v: JsonView) -> bool {
    v is Object && v->Object_0.len() == 1 && v->Object_0[0].0 == PRESENT_KEY@
}

/// How a present value is written: marked where it is null or looks like the
/// marker, else as it is.
pub open spec fn marked(inner: JsonView) -> JsonView {
    if inner is Null || present_marker(inner) {
        JsonView::Object(seq![(PRESENT_KEY@, inner)])
    } else {
        inner
    }
}

/// What is read where something may be absent: nothing for null, what is inside
/// the marker, and else the value itself.
pub open spec fn option_read(v: JsonView) -> Option<JsonView> {
    if v is Null {
        None
    } else if present_marker(v) {
        Some(v->Object_0[0].1)
    } else {
        Some(v)
    }
}

/// Whether a value is an object with the marker's key alone.
pub fn is_present_marker(value: &Json) -> (r: bool)
    ensures
        r == present_marker(value@),
{
    broadcast use group_json_view;

    match value {
        Json::Object(members) => members.len() == 1 && text_eq(members[0].0.as_str(), PRESENT_KEY),
        _ => false,
    }
}

/// How a present value is written.
pub fn mark_if_ambiguous(inner: Json) -> (r: Json)
    ensures
        r@ == marked(inner@),
{
    broadcast use group_json_view;

    if inner.is_null() || is_present_marker(&inner) {
        let ghost v = inner@;
        let mut members: Vec<(String, Json)> = Vec::new();
        members.push((PRESENT_KEY.to_owned(), inner));
        proof {
            assert(members_view(members@) =~= seq![(PRESENT_KEY@, v)]);
        }
        Json::Object(members)
    } else {
        inner
    }
}

/// What is read where something may be absent.
pub fn read_option(value: Json) -> (r: Option<Json>)
    ensures
        r.deep_view() == option_read(value@),
{
    broadcast use group_json_view;

    if value.is_null() {
        return None;
    }
    if is_present_marker(&value) {
        if let Json::Object(mut members) = value {
            let ghost all = members@;
            if let Some((_, inner)) = members.pop() {
                proof {
                    assert(members_view(all)[0].1 == inner@);
                }
                return Some(inner);
            }
            return None;
        }
        return None;
    }
    Some(value)
}

/// What is present is read back as it was, whatever it is, and is never read as
/// absent; what is absent is read as absent.
pub proof fn options_are_read_back(inner: JsonView)
    ensures
        option_read(marked(inner)) == Some(inner),
        !(marked(inner) is Null),
        option_read(JsonView::Null) is None,
{
}

/// Two present values are written alike only if they are the same.
pub proof fn options_are_told_apart(a: JsonView, b: JsonView)
    ensures
        marked(a) == marked(b) ==> a == b,
{
    options_are_read_back(a);
    options_are_read_back(b);
}

/// Whether the marker stands anywhere in a value.
pub open spec fn marker_within(v: JsonView) -> bool
    decreases v,
{
    match v {
        JsonView::Array(s) => exists|i: int| 0 <= i < s.len() && marker_within(#[trigger] s[i]),
        JsonView::Object(s) => present_marker(v) || exists|i: int|
            0 <= i < s.len() && marker_within((#[trigger] s[i]).1),
        _ => false,
    }
}

/// Whether the marker stands anywhere in a value.
#[verifier::loop_isolation(false)]
pub fn carries_present_marker(value: &Json) -> (r: bool)
    ensures
        r == marker_within(value@),
    decreases value,
{
    broadcast use group_json_view;

    match value {
        Json::Array(items) => {
            let ghost all = items_view(items@);
            proof {
                assert(value@ == JsonView::Array(all));
            }
            let mut i: usize = 0;
            while i < items.len()
                invariant
                    0 <= i <= items@.len(),
                    forall|j: int| 0 <= j < i ==> !marker_within(#[trigger] all[j]),
                decreases items@.len() - i,
            {
                let item = &items[i];
                proof {
                    assert(decreases_to!(value => items@[i as int]));
                    assert(all[i as int] == item@);
                }
                if carries_present_marker(item) {
                    proof {
                        assert(marker_within(value@->Array_0[i as int]));
                    }
                    return true;
                }
                i = i + 1;
            }
            false
        },
        Json::Object(members) => {
            let ghost all = members_view(members@);
            proof {
                assert(value@ == JsonView::Object(all));
            }
            if is_present_marker(value) {
                return true;
            }
            let mut i: usize = 0;
            while i < members.len()
                invariant
                    0 <= i <= members@.len(),
                    forall|j: int| 0 <= j < i ==> !marker_within((#[trigger] all[j]).1),
                decreases members@.len() - i,
            {
                let member = &members[i];
                proof {
                    assert(decreases_to!(value => members@[i as int]));
                    assert(decreases_to!(members@[i as int] => members@[i as int].1));
                    assert(all[i as int].1 == member.1@);
                }
                if carries_present_marker(&member.1) {
                    proof {
                        assert(marker_within(value@->Object_0[i as int].1));
                    }
                    return true;
                }
                i = i + 1;
            }
            false
        },
        _ => false,
    }
}

/// Where the marker stands nowhere, a value is read as it always was: null is
/// absent, and anything else is itself.
pub proof fn unmarked_values_are_read_plainly(v: JsonView)
    requires
        !marker_within(v),
    ensures
        option_read(v) == (if v is Null {
            None
        } else {
            Some(v)
        }),
{
}

/// The path of a type is the same behind any number of references, and ends where
/// its generic arguments begin, whatever they are.
pub proof fn type_paths_are_read(path: Seq<char>, arguments: Seq<char>, name: Seq<char>)
    ensures
        type_path(seq!['&'] + name) == type_path(name),
        path.len() > 0 && path[0] != '&' && !path.contains('<') ==> type_path(path) == path
            && type_path(path.push('<') + arguments) == path,
{
    assert((seq!['&'] + name).drop_first() =~= name);
    if path.len() > 0 && path[0] != '&' && !path.contains('<') {
        assert forall|j: int| 0 <= j < path.len() implies (#[trigger] path[j]) != '<' by {
            if path[j] == '<' {
                assert(path.contains('<'));
            }
        }
        before_arguments_ends(path, path.len() as int);
        assert(path.take(path.len() as int) =~= path);
        let full = path.push('<') + arguments;
        assert(full[0] == path[0]);
        assert(full[path.len() as int] == '<');
        assert forall|j: int| 0 <= j < path.len() implies (#[trigger] full[j]) != '<' by {
            assert(full[j] == path[j]);
        }
        before_arguments_ends(full, path.len() as int);
        assert(full.take(path.len() as int) =~= path);
    }
}

/// A hash set is a sequence without an order and a hash map a map without one, by
/// the paths of std and of hashbrown, and no type is both.
pub proof fn hashed_collections_have_no_order(name: Seq<char>)
    ensures
        type_path(name) == "std::collections::hash::set::HashSet"@ ==> unordered_sequence_type(name),
        type_path(name) == "hashbrown::set::HashSet"@ ==> unordered_sequence_type(name),
        type_path(name) == "std::collections::hash::map::HashMap"@ ==> unordered_map_type(name),
        type_path(name) == "hashbrown::map::HashMap"@ ==> unordered_map_type(name),
        !(unordered_sequence_type(name) && unordered_map_type(name)),
        unordered_sequence_type(name) ==> type_path(name).last() == 't',
        unordered_map_type(name) ==> type_path(name).last() == 'p',
{
    reveal_strlit("std::collections::hash::set::HashSet");
    reveal_strlit("hashbrown::set::HashSet");
    reveal_strlit("std::collections::hash::map::HashMap");
    reveal_strlit("hashbrown::map::HashMap");
    assert("std::collections::hash::set::HashSet"@.last() == 't');
    assert("hashbrown::set::HashSet"@.last() == 't');
    assert("std::collections::hash::map::HashMap"@.last() == 'p');
    assert("hashbrown::map::HashMap"@.last() == 'p');
}

/// The marker is seen wherever it stands: in any member of an array or of an
/// object, and in the value itself; where no member holds it and the value is not
/// it, it is nowhere.
pub proof fn markers_are_seen_anywhere(
    s: Seq<JsonView>,
    m: Seq<(Seq<char>, JsonView)>,
    i: int,
    inner: JsonView,
)
    ensures
        0 <= i < s.len() && marker_within(s[i]) ==> marker_within(JsonView::Array(s)),
        0 <= i < m.len() && marker_within(m[i].1) ==> marker_within(JsonView::Object(m)),
        marker_within(JsonView::Object(seq![("deja:some"@, inner)])),
        (forall|k: int| 0 <= k < s.len() ==> !marker_within(#[trigger] s[k])) ==> !marker_within(
            JsonView::Array(s),
        ),
{
    let a = JsonView::Array(s);
    let o = JsonView::Object(m);
    if 0 <= i < s.len() && marker_within(s[i]) {
        assert(marker_within(a->Array_0[i]));
    }
    if 0 <= i < m.len() && marker_within(m[i].1) {
        assert(marker_within(o->Object_0[i].1));
    }
}

} // verus!
