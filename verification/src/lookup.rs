//! Looking recorded results up by where a call stands and what it was given.
//!
//! What renders a lookup table and what looks calls up in it build their keys
//! here, so neither can build them differently.

use vstd::prelude::*;
use crate::event::{CallsiteIdentity, CallsiteSource};
use crate::table::{Table, TableKey};
use crate::text::{opt_clone, opt_str, opt_string, opt_text_eq, text_eq};

verus! {

/// How a call site is addressed, the most stable address first.
#[derive(Debug, Hash, PartialEq, Eq)]
pub enum Address {
    /// An explicit annotation.
    Explicit(String),
    /// The names of the spans the call fired within, root to leaf.
    SpanPath { path: String },
    /// A hash of the surrounding syntax.
    SyntacticHash(u64),
    /// A stable lexical path and the occurrence within it.
    LexicalPath { path: String, scope_occurrence: u32 },
    /// A place in the source.
    SourceLocation { file: String, line: u32, column: u32 },
    /// The position among the calls of a request: the last resort.
    Sequence { boundary: String, method: String, request_sequence: u64 },
}

/// What an address says.
pub enum AddressView {
    Explicit(Seq<char>),
    SpanPath { path: Seq<char> },
    SyntacticHash(u64),
    LexicalPath { path: Seq<char>, scope_occurrence: u32 },
    SourceLocation { file: Seq<char>, line: u32, column: u32 },
    Sequence { boundary: Seq<char>, method: Seq<char>, request_sequence: u64 },
}

impl View for Address {
    type V = AddressView;

    open spec fn view(&self) -> AddressView {
        match *self {
            Address::Explicit(tag) => AddressView::Explicit(tag@),
            Address::SpanPath { path } => AddressView::SpanPath { path: path@ },
            Address::SyntacticHash(hash) => AddressView::SyntacticHash(hash),
            Address::LexicalPath { path, scope_occurrence } => AddressView::LexicalPath {
                path: path@,
                scope_occurrence,
            },
            Address::SourceLocation { file, line, column } => AddressView::SourceLocation {
                file: file@,
                line,
                column,
            },
            Address::Sequence { boundary, method, request_sequence } => AddressView::Sequence {
                boundary: boundary@,
                method: method@,
                request_sequence,
            },
        }
    }
}

impl AddressView {
    /// How stable the address is: 1 is the most stable, 6 the least.
    pub open spec fn rank(self) -> u8 {
        match self {
            AddressView::Explicit(_) => 1,
            AddressView::SpanPath { .. } => 2,
            AddressView::SyntacticHash(_) => 3,
            AddressView::LexicalPath { .. } => 4,
            AddressView::SourceLocation { .. } => 5,
            AddressView::Sequence { .. } => 6,
        }
    }
}

impl Address {
    /// How stable the address is: 1 is the most stable, 6 the least.
    pub fn rank(&self) -> (r: u8)
        ensures
            r == self@.rank(),
    {
        match self {
            Address::Explicit(_) => 1,
            Address::SpanPath { .. } => 2,
            Address::SyntacticHash(_) => 3,
            Address::LexicalPath { .. } => 4,
            Address::SourceLocation { .. } => 5,
            Address::Sequence { .. } => 6,
        }
    }

    fn equals(&self, other: &Address) -> (r: bool)
        ensures
            r == (self@ == other@),
    {
        match (self, other) {
            (Address::Explicit(a), Address::Explicit(b)) => text_eq(a.as_str(), b.as_str()),
            (Address::SpanPath { path: a }, Address::SpanPath { path: b }) => text_eq(
                a.as_str(),
                b.as_str(),
            ),
            (Address::SyntacticHash(a), Address::SyntacticHash(b)) => *a == *b,
            (
                Address::LexicalPath { path: a, scope_occurrence: m },
                Address::LexicalPath { path: b, scope_occurrence: n },
            ) => *m == *n && text_eq(a.as_str(), b.as_str()),
            (
                Address::SourceLocation { file: a, line: k, column: m },
                Address::SourceLocation { file: b, line: l, column: n },
            ) => *k == *l && *m == *n && text_eq(a.as_str(), b.as_str()),
            (
                Address::Sequence { boundary: a, method: c, request_sequence: m },
                Address::Sequence { boundary: b, method: d, request_sequence: n },
            ) => *m == *n && text_eq(a.as_str(), b.as_str()) && text_eq(c.as_str(), d.as_str()),
            _ => false,
        }
    }
}

impl Clone for Address {
    fn clone(&self) -> (r: Address)
        ensures
            r == *self,
    {
        match self {
            Address::Explicit(tag) => Address::Explicit(tag.clone()),
            Address::SpanPath { path } => Address::SpanPath { path: path.clone() },
            Address::SyntacticHash(hash) => Address::SyntacticHash(*hash),
            Address::LexicalPath { path, scope_occurrence } => Address::LexicalPath {
                path: path.clone(),
                scope_occurrence: *scope_occurrence,
            },
            Address::SourceLocation { file, line, column } => Address::SourceLocation {
                file: file.clone(),
                line: *line,
                column: *column,
            },
            Address::Sequence { boundary, method, request_sequence } => Address::Sequence {
                boundary: boundary.clone(),
                method: method.clone(),
                request_sequence: *request_sequence,
            },
        }
    }
}

/// What the addresses say.
pub open spec fn address_views(s: Seq<Address>) -> Seq<AddressView> {
    s.map_values(|a: Address| a@)
}

/// A place in the source, as a call is looked up by it.
pub struct LocationView {
    pub file: Seq<char>,
    pub line: u32,
    pub column: u32,
}

/// A place in the source, as a call is looked up by it.
pub open spec fn location_view(location: Option<(&str, u32, u32)>) -> Option<LocationView> {
    match location {
        Some((file, line, column)) => Some(LocationView { file: file@, line, column }),
        None => None,
    }
}

/// One or no address.
pub open spec fn maybe(a: Option<AddressView>) -> Seq<AddressView> {
    match a {
        Some(v) => seq![v],
        None => Seq::empty(),
    }
}

/// The addresses an identity supports.
pub open spec fn identity_addresses(id: CallsiteIdentity) -> Seq<AddressView> {
    let explicit = if id.source is Explicit {
        match id.id {
            Some(tag) => Some(AddressView::Explicit(tag@)),
            None => None,
        }
    } else {
        None
    };
    let span = match id.span_path {
        Some(path) => Some(AddressView::SpanPath { path: path@ }),
        None => None,
    };
    let syntax = match id.syntax_hash {
        Some(hash) => Some(AddressView::SyntacticHash(hash)),
        None => None,
    };
    let lexical = match id.lexical_path {
        Some(path) => Some(
            AddressView::LexicalPath { path: path@, scope_occurrence: id.occurrence },
        ),
        None => None,
    };
    maybe(explicit) + maybe(span) + maybe(syntax) + maybe(lexical)
}

/// The addresses a call supports, the most stable first: those its identity
/// gives, its place in the source where that is known, and always its position.
pub open spec fn address_list(
    boundary: Seq<char>,
    method: Seq<char>,
    identity: Option<CallsiteIdentity>,
    location: Option<LocationView>,
    request_sequence: u64,
) -> Seq<AddressView> {
    let by_identity = match identity {
        Some(id) => identity_addresses(id),
        None => Seq::empty(),
    };
    let by_location = match location {
        Some(l) => Some(
            AddressView::SourceLocation { file: l.file, line: l.line, column: l.column },
        ),
        None => None,
    };
    by_identity + maybe(by_location) + seq![
        AddressView::Sequence { boundary, method, request_sequence },
    ]
}

/// An identity that may be missing, by value.
pub open spec fn identity_value(identity: Option<&CallsiteIdentity>) -> Option<CallsiteIdentity> {
    match identity {
        Some(id) => Some(*id),
        None => None,
    }
}

/// The addresses a call supports, the most stable first.
pub fn addresses_for(
    boundary: &str,
    method_name: &str,
    identity: Option<&CallsiteIdentity>,
    location: Option<(&str, u32, u32)>,
    request_sequence: u64,
) -> (r: Vec<Address>)
    ensures
        address_views(r@) == address_list(
            boundary@,
            method_name@,
            identity_value(identity),
            location_view(location),
            request_sequence,
        ),
{
    let mut out: Vec<Address> = Vec::new();
    if let Some(id) = identity {
        if matches!(id.source, CallsiteSource::Explicit) {
            if let Some(tag) = &id.id {
                out.push(Address::Explicit(tag.clone()));
            }
        }
        if let Some(path) = &id.span_path {
            out.push(Address::SpanPath { path: path.clone() });
        }
        if let Some(hash) = id.syntax_hash {
            out.push(Address::SyntacticHash(hash));
        }
        if let Some(path) = &id.lexical_path {
            out.push(
                Address::LexicalPath { path: path.clone(), scope_occurrence: id.occurrence },
            );
        }
        proof {
            assert(address_views(out@) =~= identity_addresses(*id));
        }
    }
    let ghost by_identity = address_views(out@);
    if let Some((file, line, column)) = location {
        out.push(Address::SourceLocation { file: file.to_owned(), line, column });
    }
    out.push(
        Address::Sequence {
            boundary: boundary.to_owned(),
            method: method_name.to_owned(),
            request_sequence,
        },
    );
    proof {
        assert(address_views(out@) =~= address_list(
            boundary@,
            method_name@,
            identity_value(identity),
            location_view(location),
            request_sequence,
        ));
    }
    out
}

/// Every call has an address, and its addresses stand from the most stable to
/// the least, each rank once.
pub proof fn addresses_stand_by_rank(
    boundary: Seq<char>,
    method: Seq<char>,
    identity: Option<CallsiteIdentity>,
    location: Option<LocationView>,
    request_sequence: u64,
)
    ensures
        ({
            let list = address_list(boundary, method, identity, location, request_sequence);
            &&& 1 <= list.len() <= 6
            &&& list.last() is Sequence
            &&& forall|i: int, j: int|
                0 <= i < j < list.len() ==> (#[trigger] list[i]).rank() < (
                #[trigger] list[j]).rank()
        }),
{
}

/// A call is listed under every address it supports and under no other: its tag
/// where its source is explicit, the path of its spans, the hash of its syntax,
/// its lexical path with the occurrence in it, its place in the source, and
/// always its position.
pub proof fn every_address_is_listed(
    boundary: Seq<char>,
    method: Seq<char>,
    identity: Option<CallsiteIdentity>,
    location: Option<LocationView>,
    request_sequence: u64,
    a: AddressView,
)
    ensures
        address_list(boundary, method, identity, location, request_sequence).contains(a) <==> {
            ||| a == AddressView::Sequence { boundary, method, request_sequence }
            ||| location matches Some(l) && a == (AddressView::SourceLocation {
                file: l.file,
                line: l.line,
                column: l.column,
            })
            ||| identity matches Some(id) && {
                ||| id.source is Explicit && id.id is Some && a == AddressView::Explicit(
                    id.id->0@,
                )
                ||| id.span_path is Some && a == (AddressView::SpanPath { path: id.span_path->0@ })
                ||| id.syntax_hash is Some && a == AddressView::SyntacticHash(id.syntax_hash->0)
                ||| id.lexical_path is Some && a == (AddressView::LexicalPath {
                    path: id.lexical_path->0@,
                    scope_occurrence: id.occurrence,
                })
            }
        },
{
    let by_identity = match identity {
        Some(id) => identity_addresses(id),
        None => Seq::empty(),
    };
    let by_location = match location {
        Some(l) => Some(
            AddressView::SourceLocation { file: l.file, line: l.line, column: l.column },
        ),
        None => None,
    };
    let last = seq![AddressView::Sequence { boundary, method, request_sequence }];
    in_either(by_identity + maybe(by_location), last, a);
    in_either(by_identity, maybe(by_location), a);
    in_maybe(by_location, a);
    assert(last.contains(a) <==> a == last[0]) by {
        assert(last[0] == last[0]);
    }
    if let Some(id) = identity {
        let explicit = if id.source is Explicit {
            match id.id {
                Some(tag) => Some(AddressView::Explicit(tag@)),
                None => None,
            }
        } else {
            None
        };
        let span = match id.span_path {
            Some(path) => Some(AddressView::SpanPath { path: path@ }),
            None => None,
        };
        let syntax = match id.syntax_hash {
            Some(hash) => Some(AddressView::SyntacticHash(hash)),
            None => None,
        };
        let lexical = match id.lexical_path {
            Some(path) => Some(
                AddressView::LexicalPath { path: path@, scope_occurrence: id.occurrence },
            ),
            None => None,
        };
        in_either(maybe(explicit) + maybe(span) + maybe(syntax), maybe(lexical), a);
        in_either(maybe(explicit) + maybe(span), maybe(syntax), a);
        in_either(maybe(explicit), maybe(span), a);
        in_maybe(explicit, a);
        in_maybe(span, a);
        in_maybe(syntax, a);
        in_maybe(lexical, a);
    }
}

proof fn in_either(s: Seq<AddressView>, t: Seq<AddressView>, a: AddressView)
    ensures
        (s + t).contains(a) <==> s.contains(a) || t.contains(a),
{
    if s.contains(a) {
        let i = choose|i: int| 0 <= i < s.len() && s[i] == a;
        assert((s + t)[i] == a);
    }
    if t.contains(a) {
        let i = choose|i: int| 0 <= i < t.len() && t[i] == a;
        assert((s + t)[s.len() + i] == a);
    }
}

proof fn in_maybe(m: Option<AddressView>, a: AddressView)
    ensures
        maybe(m).contains(a) <==> m == Some(a),
{
    if m == Some(a) {
        assert(maybe(m)[0] == a);
    }
}

/// The order of stability: an explicit tag, the spans, the syntax, the lexical
/// path, the place in the source, and last the position.
pub proof fn ranks_order_the_kinds(a: AddressView)
    ensures
        1 <= a.rank() <= 6,
        a.rank() == 1 <==> a is Explicit,
        a.rank() == 2 <==> a is SpanPath,
        a.rank() == 3 <==> a is SyntacticHash,
        a.rank() == 4 <==> a is LexicalPath,
        a.rank() == 5 <==> a is SourceLocation,
        a.rank() == 6 <==> a is Sequence,
{
}

/// Two addresses say the same only if they are of one kind and agree in all that
/// the kind holds.
pub proof fn addresses_say_all_they_hold(a: Address, b: Address)
    ensures
        a@ == b@ <==> match (a, b) {
            (Address::Explicit(s), Address::Explicit(t)) => s@ == t@,
            (Address::SpanPath { path: s }, Address::SpanPath { path: t }) => s@ == t@,
            (Address::SyntacticHash(m), Address::SyntacticHash(n)) => m == n,
            (
                Address::LexicalPath { path: s, scope_occurrence: m },
                Address::LexicalPath { path: t, scope_occurrence: n },
            ) => s@ == t@ && m == n,
            (
                Address::SourceLocation { file: s, line: k, column: m },
                Address::SourceLocation { file: t, line: l, column: n },
            ) => s@ == t@ && k == l && m == n,
            (
                Address::Sequence { boundary: s, method: u, request_sequence: m },
                Address::Sequence { boundary: t, method: v, request_sequence: n },
            ) => s@ == t@ && u@ == v@ && m == n,
            _ => false,
        },
{
}

/// The key a recorded result is kept under.
#[derive(Debug, Hash, PartialEq, Eq)]
pub struct LookupKey {
    pub correlation_id: Option<String>,
    pub bucket_id: Option<String>,
    pub fork_seq: u64,
    pub address: Address,
    pub args_hash: u64,
    /// Which of the calls with this correlation, bucket, address and arguments
    /// it is.
    pub occurrence: u32,
}

/// What a lookup key says.
pub struct LookupKeyView {
    pub correlation_id: Option<Seq<char>>,
    pub bucket_id: Option<Seq<char>>,
    pub fork_seq: u64,
    pub address: AddressView,
    pub args_hash: u64,
    pub occurrence: u32,
}

impl View for LookupKey {
    type V = LookupKeyView;

    open spec fn view(&self) -> LookupKeyView {
        LookupKeyView {
            correlation_id: self.correlation_id.deep_view(),
            bucket_id: self.bucket_id.deep_view(),
            fork_seq: self.fork_seq,
            address: self.address@,
            args_hash: self.args_hash,
            occurrence: self.occurrence,
        }
    }
}

impl TableKey for LookupKey {
    type Key = LookupKeyView;

    open spec fn key(&self) -> LookupKeyView {
        self@
    }

    fn same_key(&self, other: &LookupKey) -> (r: bool) {
        self.args_hash == other.args_hash && self.occurrence == other.occurrence && self.fork_seq
            == other.fork_seq && self.address.equals(&other.address) && opt_text_eq(
            opt_str(&self.correlation_id),
            opt_str(&other.correlation_id),
        ) && opt_text_eq(opt_str(&self.bucket_id), opt_str(&other.bucket_id))
    }
}

impl Clone for LookupKey {
    fn clone(&self) -> (r: LookupKey)
        ensures
            r == *self,
    {
        LookupKey {
            correlation_id: opt_clone(&self.correlation_id),
            bucket_id: opt_clone(&self.bucket_id),
            fork_seq: self.fork_seq,
            address: self.address.clone(),
            args_hash: self.args_hash,
            occurrence: self.occurrence,
        }
    }
}

/// What occurrences are numbered under.
#[derive(Debug)]
pub struct StampKey {
    pub correlation_id: Option<String>,
    pub bucket_id: Option<String>,
    pub address: Address,
    pub args_hash: u64,
}

/// What a stamp key says.
pub struct StampKeyView {
    pub correlation_id: Option<Seq<char>>,
    pub bucket_id: Option<Seq<char>>,
    pub address: AddressView,
    pub args_hash: u64,
}

impl TableKey for StampKey {
    type Key = StampKeyView;

    open spec fn key(&self) -> StampKeyView {
        StampKeyView {
            correlation_id: self.correlation_id.deep_view(),
            bucket_id: self.bucket_id.deep_view(),
            address: self.address@,
            args_hash: self.args_hash,
        }
    }

    fn same_key(&self, other: &StampKey) -> (r: bool) {
        self.args_hash == other.args_hash && self.address.equals(&other.address) && opt_text_eq(
            opt_str(&self.correlation_id),
            opt_str(&other.correlation_id),
        ) && opt_text_eq(opt_str(&self.bucket_id), opt_str(&other.bucket_id))
    }
}

/// How often an address stands in a list.
pub open spec fn times(s: Seq<AddressView>, a: AddressView) -> nat
    decreases s.len(),
{
    if s.len() == 0 {
        0
    } else {
        times(s.drop_last(), a) + (if s.last() == a {
            1nat
        } else {
            0nat
        })
    }
}

proof fn times_only_grows(s: Seq<AddressView>, n: int, a: AddressView)
    requires
        0 <= n <= s.len(),
    ensures
        times(s.take(n), a) <= times(s, a),
    decreases s.len(),
{
    if n == s.len() {
        assert(s.take(n) =~= s);
    } else {
        assert(s.drop_last().take(n) =~= s.take(n));
        times_only_grows(s.drop_last(), n, a);
    }
}

/// What the keys say.
pub open spec fn lookup_key_views(s: Seq<LookupKey>) -> Seq<LookupKeyView> {
    s.map_values(|k: LookupKey| k@)
}

/// Numbers the occurrences of calls, turning addresses into lookup keys. It
/// advances for every address of every call, whichever of them resolves.
pub struct KeyStamper {
    occurrences: Table<StampKey, u64>,
}

impl Default for KeyStamper {
    fn default() -> (r: KeyStamper)
        ensures
            forall|key: StampKeyView| #[trigger] r.count(key) == 0,
    {
        KeyStamper::new()
    }
}

impl KeyStamper {
    /// How many calls were numbered under a key.
    pub closed spec fn count(self, key: StampKeyView) -> nat {
        self.occurrences.upcoming(key, 0) as nat
    }

    /// The lookup keys of a call, given how many calls were numbered before.
    pub open spec fn stamps(
        self,
        correlation_id: Option<Seq<char>>,
        bucket_id: Option<Seq<char>>,
        fork_seq: u64,
        addresses: Seq<AddressView>,
        args_hash: u64,
    ) -> Seq<LookupKeyView> {
        Seq::new(
            addresses.len(),
            |i: int|
                LookupKeyView {
                    correlation_id,
                    bucket_id,
                    fork_seq,
                    address: addresses[i],
                    args_hash,
                    occurrence: (self.count(
                        StampKeyView {
                            correlation_id,
                            bucket_id,
                            address: addresses[i],
                            args_hash,
                        },
                    ) + times(addresses.take(i), addresses[i])) as u32,
                },
        )
    }

    /// Whether the numbers of a call's addresses have not run out.
    pub open spec fn has_room(
        self,
        correlation_id: Option<Seq<char>>,
        bucket_id: Option<Seq<char>>,
        addresses: Seq<AddressView>,
        args_hash: u64,
    ) -> bool {
        forall|i: int|
            0 <= i < addresses.len() ==> self.count(
                StampKeyView {
                    correlation_id,
                    bucket_id,
                    address: #[trigger] addresses[i],
                    args_hash,
                },
            ) + times(addresses, addresses[i]) <= u32::MAX
    }

    /// A stamper that has numbered nothing.
    pub fn new() -> (r: KeyStamper)
        ensures
            forall|key: StampKeyView| #[trigger] r.count(key) == 0,
    {
        KeyStamper { occurrences: Table::new() }
    }

    /// Numbers one call under each of its addresses.
    #[verifier::loop_isolation(false)]
    pub fn stamp(
        &mut self,
        correlation_id: Option<&str>,
        bucket_id: Option<&str>,
        fork_seq: u64,
        addresses: &Vec<Address>,
        args_hash: u64,
    ) -> (r: Vec<LookupKey>)
        requires
            old(self).has_room(
                correlation_id.deep_view(),
                bucket_id.deep_view(),
                address_views(addresses@),
                args_hash,
            ),
        ensures
            lookup_key_views(r@) == old(self).stamps(
                correlation_id.deep_view(),
                bucket_id.deep_view(),
                fork_seq,
                address_views(addresses@),
                args_hash,
            ),
            forall|key: StampKeyView| #[trigger]
                final(self).count(key) == old(self).count(key) + (if key.correlation_id
                    == correlation_id.deep_view() && key.bucket_id == bucket_id.deep_view()
                    && key.args_hash == args_hash {
                    times(address_views(addresses@), key.address)
                } else {
                    0
                }),
    {
        let ghost all = address_views(addresses@);
        let ghost c = correlation_id.deep_view();
        let ghost b = bucket_id.deep_view();
        let ghost want = old(self).stamps(c, b, fork_seq, all, args_hash);
        let mut out: Vec<LookupKey> = Vec::new();
        let mut i: usize = 0;
        proof {
            assert(all.take(0) =~= Seq::<AddressView>::empty());
        }
        while i < addresses.len()
            invariant
                0 <= i <= addresses@.len(),
                lookup_key_views(out@) == want.take(i as int),
                forall|key: StampKeyView| #[trigger]
                    self.count(key) == old(self).count(key) + (if key.correlation_id == c
                        && key.bucket_id == b && key.args_hash == args_hash {
                        times(all.take(i as int), key.address)
                    } else {
                        0
                    }),
            decreases addresses@.len() - i,
        {
            let ghost k = StampKeyView {
                correlation_id: c,
                bucket_id: b,
                address: all[i as int],
                args_hash,
            };
            proof {
                times_only_grows(all, i as int + 1, all[i as int]);
                assert(old(self).count(k) + times(all, all[i as int]) <= u32::MAX);
                assert(self.count(k) == old(self).count(k) + times(
                    all.take(i as int),
                    all[i as int],
                ));
                assert(all.take(i as int + 1).drop_last() =~= all.take(i as int));
                assert(all.take(i as int + 1).last() == all[i as int]);
            }
            let ghost before = *self;
            let number: u64 = self.occurrences.take_number(
                StampKey {
                    correlation_id: opt_string(correlation_id),
                    bucket_id: opt_string(bucket_id),
                    address: addresses[i].clone(),
                    args_hash,
                },
                0,
            );
            let ghost was = out@;
            let one = LookupKey {
                correlation_id: opt_string(correlation_id),
                bucket_id: opt_string(bucket_id),
                fork_seq,
                address: addresses[i].clone(),
                args_hash,
                occurrence: number as u32,
            };
            out.push(one);
            proof {
                assert(lookup_key_views(out@) =~= lookup_key_views(was).push(one@));
                assert(one@ == want[i as int]);
                assert(lookup_key_views(out@) =~= want.take(i as int + 1));
                assert forall|key: StampKeyView| #[trigger]
                    self.count(key) == old(self).count(key) + (if key.correlation_id == c
                        && key.bucket_id == b && key.args_hash == args_hash {
                        times(all.take(i as int + 1), key.address)
                    } else {
                        0
                    }) by {
                    assert(before.count(key) == old(self).count(key) + (if key.correlation_id == c
                        && key.bucket_id == b && key.args_hash == args_hash {
                        times(all.take(i as int), key.address)
                    } else {
                        0
                    }));
                    if key != k {
                        assert(self.occurrences.at(key) == before.occurrences.at(key));
                    }
                }
            }
            i = i + 1;
        }
        proof {
            assert(all.take(all.len() as int) =~= all);
            assert(want.take(all.len() as int) =~= want);
        }
        out
    }
}

/// Two lookup keys are one key only if they agree in all they hold, and so are
/// two keys under which occurrences are numbered.
pub proof fn keys_say_all_they_hold(a: LookupKey, b: LookupKey, c: StampKey, d: StampKey)
    ensures
        a.key() == b.key() <==> a.correlation_id.deep_view() == b.correlation_id.deep_view()
            && a.bucket_id.deep_view() == b.bucket_id.deep_view() && a.fork_seq == b.fork_seq
            && a.address@ == b.address@ && a.args_hash == b.args_hash && a.occurrence
            == b.occurrence,
        c.key() == d.key() <==> c.correlation_id.deep_view() == d.correlation_id.deep_view()
            && c.bucket_id.deep_view() == d.bucket_id.deep_view() && c.address@ == d.address@
            && c.args_hash == d.args_hash,
{
}

/// How often an address stands in a list is its multiplicity there.
pub proof fn times_are_counted(s: Seq<AddressView>, a: AddressView)
    ensures
        times(s, a) == s.to_multiset().count(a),
    decreases s.len(),
{
    broadcast use vstd::seq_lib::group_to_multiset_ensures;

    if s.len() > 0 {
        times_are_counted(s.drop_last(), a);
        assert(s =~= s.drop_last().push(s.last()));
        assert(s.to_multiset() =~= s.drop_last().to_multiset().insert(s.last()));
    }
}

/// A call is given one key for each of its addresses, in their order, and each
/// carries what the call stands in and what it was given; an address that stands
/// once in the list is numbered by the calls that were numbered under it before.
pub proof fn keys_carry_the_call(
    stamper: KeyStamper,
    correlation_id: Option<Seq<char>>,
    bucket_id: Option<Seq<char>>,
    fork_seq: u64,
    addresses: Seq<AddressView>,
    args_hash: u64,
    i: int,
)
    requires
        0 <= i < addresses.len(),
    ensures
        ({
            let keys = stamper.stamps(correlation_id, bucket_id, fork_seq, addresses, args_hash);
            &&& keys.len() == addresses.len()
            &&& keys[i].correlation_id == correlation_id
            &&& keys[i].bucket_id == bucket_id
            &&& keys[i].fork_seq == fork_seq
            &&& keys[i].address == addresses[i]
            &&& keys[i].args_hash == args_hash
            &&& (forall|j: int| 0 <= j < i ==> addresses[j] != addresses[i])
                && stamper.has_room(correlation_id, bucket_id, addresses, args_hash)
                ==> keys[i].occurrence == stamper.count(
                StampKeyView { correlation_id, bucket_id, address: addresses[i], args_hash },
            )
        }),
{
    if forall|j: int| 0 <= j < i ==> addresses[j] != addresses[i] {
        none_before(addresses.take(i), addresses[i]);
    }
}

proof fn none_before(s: Seq<AddressView>, a: AddressView)
    requires
        forall|j: int| 0 <= j < s.len() ==> s[j] != a,
    ensures
        times(s, a) == 0,
    decreases s.len(),
{
    if s.len() > 0 {
        none_before(s.drop_last(), a);
    }
}

} // verus!
