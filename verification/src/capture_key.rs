//! The capture key: a deployment secret that turns captured values into keyed
//! digests, so a structured capture can be recorded without its contents.
//!
//! A digest is deterministic: one value under one key always gives one digest,
//! so what records and what replays, holding one key, produce comparable
//! images. A capture names its key only by the key's id, a keyed hash of a
//! fixed label.

use hmac::{Hmac, Mac};
use sha2::Sha256;
use vstd::prelude::*;
use vstd::utf8::{encode_utf8, is_ascii_chars_encode_utf8};
use crate::json::{
    group_json_view, item_is_smaller, items_view, member_is_smaller, members_view, Json, JsonView,
};
use crate::text::{encoding_is_injective, hex_chars, hexadecimal_is_told_apart, joined};

verus! {

/// The label the key id is derived from. Changing it changes every key id.
pub const KEY_ID_LABEL: &'static str = "deja-capture-key-id";

/// The prefix of a digested leaf, so a digest is never taken for a captured
/// value.
pub const DIGEST_PREFIX: &'static str = "h:";

/// HMAC-SHA256 of a message under a key.
pub uninterp spec fn hmac_sha256(key: Seq<u8>, message: Seq<u8>) -> Seq<u8>;

/// `hmac::Hmac<sha2::Sha256>`: made by `new_from_slice`, which takes a key of
/// any length, fed the message by `update` and closed by `finalize`. What it
/// gives is named by [`hmac_sha256`]; its length is SHA-256's, 32 bytes.
#[verifier::external_body]
fn hmac(key: &[u8], message: &[u8]) -> (r: Vec<u8>)
    ensures
        r@ == hmac_sha256(key@, message@),
        r@.len() == 32,
{
    let mut mac = Hmac::<Sha256>::new_from_slice(key).expect("HMAC takes a key of any length");
    mac.update(message);
    mac.finalize().into_bytes().to_vec()
}

/// `hex::encode`: lower-case hexadecimal, two digits a byte.
#[verifier::external_body]
fn hex_text(bytes: &[u8]) -> (r: String)
    ensures
        r@ == hex_chars(bytes@),
{
    hex::encode(bytes)
}

/// What is hashed for a value: its tag, a zero byte, its bytes.
pub open spec fn message(tag: Seq<u8>, bytes: Seq<u8>) -> Seq<u8> {
    tag.push(0) + bytes
}

/// The id of a key: the first eight bytes of the keyed hash of the label.
pub open spec fn key_id(key: Seq<u8>) -> Seq<char> {
    hex_chars(
        hmac_sha256(key, message(encode_utf8(KEY_ID_LABEL@), Seq::empty())).subrange(0, 8),
    )
}

/// The digest of a scalar: the first sixteen bytes of its keyed hash, marked
/// as a digest.
pub open spec fn digest_text(key: Seq<u8>, tag: Seq<u8>, bytes: Seq<u8>) -> Seq<char> {
    DIGEST_PREFIX@ + hex_chars(hmac_sha256(key, message(tag, bytes)).subrange(0, 16))
}

/// The keyed hash of a tagged value.
pub fn mac(key: &[u8], tag: &[u8], bytes: &[u8]) -> (r: Vec<u8>)
    ensures
        r@ == hmac_sha256(key@, message(tag@, bytes@)),
        r@.len() == 32,
{
    let mut all: Vec<u8> = Vec::new();
    all.extend_from_slice(tag);
    all.push(0);
    all.extend_from_slice(bytes);
    proof {
        assert(all@ =~= message(tag@, bytes@));
    }
    hmac(key, all.as_slice())
}

/// A configured capture key.
pub struct CaptureKey {
    key: Vec<u8>,
    id: String,
}

impl Clone for CaptureKey {
    fn clone(&self) -> (r: CaptureKey)
        ensures
            r.secret() == self.secret(),
    {
        proof {
            use_type_invariant(self);
        }
        let mut key: Vec<u8> = Vec::new();
        key.extend_from_slice(self.key.as_slice());
        proof {
            assert(key@ =~= self.key@);
        }
        CaptureKey { key, id: self.id.clone() }
    }
}

impl CaptureKey {
    /// The secret.
    pub closed spec fn secret(self) -> Seq<u8> {
        self.key@
    }

    #[verifier::type_invariant]
    spec fn inv(self) -> bool {
        self.key@.len() > 0 && self.id@ == key_id(self.key@) && self.id@.len() == 16
    }

    /// A key from its secret bytes. An empty secret is no key at all.
    pub fn new(secret: &[u8]) -> (r: Option<CaptureKey>)
        ensures
            r is Some <==> secret@.len() > 0,
            r matches Some(k) ==> k.secret() == secret@,
    {
        if secret.len() == 0 {
            return None;
        }
        let mut key: Vec<u8> = Vec::new();
        key.extend_from_slice(secret);
        proof {
            assert(key@ =~= secret@);
        }
        let none: Vec<u8> = Vec::new();
        let hash = mac(key.as_slice(), KEY_ID_LABEL.as_bytes(), none.as_slice());
        let (front, _rest) = hash.as_slice().split_at(8);
        let id = hex_text(front);
        proof {
            assert(none@ =~= Seq::<u8>::empty());
        }
        Some(CaptureKey { key, id })
    }

    /// The key's public identity, stamped on every image it produced.
    pub fn id(&self) -> (r: &str)
        ensures
            r@ == key_id(self.secret()),
            r@.len() == 16,
    {
        proof {
            use_type_invariant(self);
        }
        self.id.as_str()
    }

    /// The digest of one scalar. `tag` separates kinds, so the string `"1"`
    /// and the number `1` are hashed as different messages.
    pub fn digest(&self, tag: &[u8], bytes: &[u8]) -> (r: String)
        ensures
            r@ == digest_text(self.secret(), tag@, bytes@),
            r@.len() == 34,
    {
        proof {
            reveal_strlit("h:");
        }
        let hash = mac(self.key.as_slice(), tag, bytes);
        let (front, _rest) = hash.as_slice().split_at(16);
        let text = hex_text(front);
        joined(DIGEST_PREFIX, text.as_str())
    }

    /// Replaces every scalar leaf of a document with its digest, keeping every
    /// object key and every array position. `null` stays `null`.
    #[verifier::loop_isolation(false)]
    pub fn digest_leaves(&self, value: &Json) -> (r: Json)
        ensures
            r@ == digested(self.secret(), value@),
            holds_digests(r@),
        decreases value@.size(),
    {
        broadcast use group_json_view;

        match value {
            Json::Null => Json::Null,
            Json::Bool(flag) => {
                let mut byte: Vec<u8> = Vec::new();
                if *flag {
                    byte.push(1);
                } else {
                    byte.push(0);
                }
                proof {
                    assert(byte@ =~= seq![if *flag { 1u8 } else { 0u8 }]);
                }
                Json::String(self.digest("t".as_bytes(), byte.as_slice()))
            },
            Json::Number(n) => Json::String(self.digest("n".as_bytes(), n.as_str().as_bytes())),
            Json::String(s) => Json::String(self.digest("s".as_bytes(), s.as_str().as_bytes())),
            Json::Array(items) => {
                let ghost all = items_view(items@);
                let ghost image = digested(self.secret(), value@)->Array_0;
                let mut out: Vec<Json> = Vec::new();
                let mut i: usize = 0;
                while i < items.len()
                    invariant
                        0 <= i <= items@.len(),
                        items_view(out@) == image.take(i as int),
                        forall|j: int|
                            0 <= j < i ==> holds_digests(#[trigger] items_view(out@)[j]),
                    decreases items@.len() - i,
                {
                    proof {
                        item_is_smaller(all, i as int);
                    }
                    let ghost was = out@;
                    let one = self.digest_leaves(&items[i]);
                    out.push(one);
                    proof {
                        assert(items_view(out@) =~= items_view(was).push(one@));
                        assert(image.take(i as int + 1) =~= image.take(i as int).push(one@));
                    }
                    i = i + 1;
                }
                proof {
                    assert(image.take(i as int) =~= image);
                }
                Json::Array(out)
            },
            Json::Object(members) => {
                let ghost all = members_view(members@);
                let ghost image = digested(self.secret(), value@)->Object_0;
                let mut out: Vec<(String, Json)> = Vec::new();
                let mut i: usize = 0;
                while i < members.len()
                    invariant
                        0 <= i <= members@.len(),
                        members_view(out@) == image.take(i as int),
                        forall|j: int|
                            0 <= j < i ==> holds_digests((#[trigger] members_view(out@)[j]).1),
                    decreases members@.len() - i,
                {
                    proof {
                        member_is_smaller(all, i as int);
                    }
                    let ghost was = out@;
                    let key = members[i].0.clone();
                    let one = self.digest_leaves(&members[i].1);
                    out.push((key, one));
                    proof {
                        assert(members_view(out@) =~= members_view(was).push((key@, one@)));
                        assert(image.take(i as int + 1) =~= image.take(i as int).push(
                            (key@, one@),
                        ));
                    }
                    i = i + 1;
                }
                proof {
                    assert(image.take(i as int) =~= image);
                }
                Json::Object(out)
            },
        }
    }
}

/// Whether every leaf of a document is null or as long as a digest.
pub open spec fn holds_digests(v: JsonView) -> bool
    decreases v,
{
    match v {
        JsonView::Null => true,
        JsonView::String(s) => s.len() == 34,
        JsonView::Array(s) => forall|i: int| 0 <= i < s.len() ==> holds_digests(#[trigger] s[i]),
        JsonView::Object(s) => forall|i: int|
            0 <= i < s.len() ==> holds_digests((#[trigger] s[i]).1),
        _ => false,
    }
}

/// A document with every scalar leaf replaced by its digest.
pub open spec fn digested(key: Seq<u8>, v: JsonView) -> JsonView
    decreases v,
{
    match v {
        JsonView::Null => JsonView::Null,
        JsonView::Bool(b) => JsonView::String(
            digest_text(key, encode_utf8("t"@), seq![if b { 1u8 } else { 0u8 }]),
        ),
        JsonView::Number(n) => JsonView::String(
            digest_text(key, encode_utf8("n"@), encode_utf8(n)),
        ),
        JsonView::String(s) => JsonView::String(
            digest_text(key, encode_utf8("s"@), encode_utf8(s)),
        ),
        JsonView::Array(s) => JsonView::Array(
            Seq::new(
                s.len(),
                |i: int|
                    if 0 <= i < s.len() {
                        digested(key, s[i])
                    } else {
                        JsonView::Null
                    },
            ),
        ),
        JsonView::Object(s) => JsonView::Object(
            Seq::new(
                s.len(),
                |i: int|
                    if 0 <= i < s.len() {
                        (s[i].0, digested(key, s[i].1))
                    } else {
                        (Seq::empty(), JsonView::Null)
                    },
            ),
        ),
    }
}

/// Whether every leaf is a digest or null: no scalar of the document is left.
pub open spec fn holds_only_digests(v: JsonView) -> bool
    decreases v,
{
    match v {
        JsonView::Null => true,
        JsonView::Bool(_) => false,
        JsonView::Number(_) => false,
        JsonView::String(s) => DIGEST_PREFIX@.is_prefix_of(s),
        JsonView::Array(s) => forall|i: int|
            0 <= i < s.len() ==> holds_only_digests(#[trigger] s[i]),
        JsonView::Object(s) => forall|i: int|
            0 <= i < s.len() ==> holds_only_digests((#[trigger] s[i]).1),
    }
}

/// Whether two documents have one structure: the same keys and positions, and
/// null in the same places.
pub open spec fn same_structure(a: JsonView, b: JsonView) -> bool
    decreases a,
{
    match (a, b) {
        (JsonView::Array(x), JsonView::Array(y)) => {
            &&& x.len() == y.len()
            &&& forall|i: int| 0 <= i < x.len() ==> same_structure(#[trigger] x[i], y[i])
        },
        (JsonView::Object(x), JsonView::Object(y)) => {
            &&& x.len() == y.len()
            &&& forall|i: int|
                0 <= i < x.len() ==> (#[trigger] x[i]).0 == y[i].0 && same_structure(
                    x[i].1,
                    y[i].1,
                )
        },
        (JsonView::Array(_), _) => false,
        (JsonView::Object(_), _) => false,
        (_, JsonView::Array(_)) => false,
        (_, JsonView::Object(_)) => false,
        _ => a is Null == b is Null,
    }
}

/// Digesting keeps the structure of a document and drops every scalar.
pub proof fn digesting_keeps_the_structure(key: Seq<u8>, v: JsonView)
    ensures
        same_structure(v, digested(key, v)),
        holds_only_digests(digested(key, v)),
    decreases v,
{
    let d = digested(key, v);
    match v {
        JsonView::Array(s) => {
            assert forall|i: int| 0 <= i < s.len() implies same_structure(
                #[trigger] s[i],
                d->Array_0[i],
            ) && holds_only_digests(d->Array_0[i]) by {
                digesting_keeps_the_structure(key, s[i]);
            }
        },
        JsonView::Object(s) => {
            assert forall|i: int| 0 <= i < s.len() implies same_structure(
                (#[trigger] s[i]).1,
                d->Object_0[i].1,
            ) && holds_only_digests(d->Object_0[i].1) by {
                digesting_keeps_the_structure(key, s[i].1);
            }
        },
        JsonView::Null => {},
        _ => {
            let s = d->String_0;
            assert(DIGEST_PREFIX@ =~= s.subrange(0, DIGEST_PREFIX@.len() as int));
        },
    }
}

/// What is hashed of a scalar: its kind, a zero byte, and what it holds.
pub open spec fn scalar_message(v: JsonView) -> Seq<u8> {
    match v {
        JsonView::Bool(b) => encode_utf8("t"@) + seq![0u8, if b { 1u8 } else { 0u8 }],
        JsonView::Number(n) => encode_utf8("n"@) + seq![0u8] + encode_utf8(n),
        JsonView::String(s) => encode_utf8("s"@) + seq![0u8] + encode_utf8(s),
        _ => Seq::empty(),
    }
}

/// The digest of a scalar is read off the keyed hash of a message that no other
/// scalar has: different scalars, of one kind or of two, are hashed from
/// different messages.
pub proof fn scalars_are_digested_apart(key: Seq<u8>, a: JsonView, b: JsonView)
    requires
        a is Bool || a is Number || a is String,
        b is Bool || b is Number || b is String,
    ensures
        digested(key, a) == JsonView::String(
            "h:"@ + hex_chars(hmac_sha256(key, scalar_message(a)).subrange(0, 16)),
        ),
        scalar_message(a) == scalar_message(b) ==> a == b,
        digested(key, a) == digested(key, b) ==> hmac_sha256(key, scalar_message(a)).subrange(
            0,
            16,
        ) == hmac_sha256(key, scalar_message(b)).subrange(0, 16),
{
    kinds_are_one_byte();
    let x = scalar_message(a);
    let y = scalar_message(b);
    let t = encode_utf8("t"@);
    let n = encode_utf8("n"@);
    let s = encode_utf8("s"@);
    match a {
        JsonView::Bool(f) => {
            assert(x =~= message(t, seq![if f { 1u8 } else { 0u8 }]));
        },
        JsonView::Number(m) => {
            assert(x =~= message(n, encode_utf8(m)));
        },
        JsonView::String(m) => {
            assert(x =~= message(s, encode_utf8(m)));
        },
        _ => {},
    }
    match b {
        JsonView::Bool(f) => {
            assert(y =~= message(t, seq![if f { 1u8 } else { 0u8 }]));
        },
        JsonView::Number(m) => {
            assert(y =~= message(n, encode_utf8(m)));
        },
        JsonView::String(m) => {
            assert(y =~= message(s, encode_utf8(m)));
        },
        _ => {},
    }
    if x == y {
        assert(x[0] == y[0]);
        assert(x.skip(2) == y.skip(2));
        match (a, b) {
            (JsonView::Bool(f), JsonView::Bool(g)) => {
                assert(x[2] == y[2]);
            },
            (JsonView::Number(m), JsonView::Number(k)) => {
                assert(x.skip(2) =~= encode_utf8(m));
                assert(y.skip(2) =~= encode_utf8(k));
                encoding_is_injective(m, k);
            },
            (JsonView::String(m), JsonView::String(k)) => {
                assert(x.skip(2) =~= encode_utf8(m));
                assert(y.skip(2) =~= encode_utf8(k));
                encoding_is_injective(m, k);
            },
            _ => {},
        }
    }
    if digested(key, a) == digested(key, b) {
        let p = hmac_sha256(key, x).subrange(0, 16);
        let q = hmac_sha256(key, y).subrange(0, 16);
        let c = "h:"@ + hex_chars(p);
        let d = "h:"@ + hex_chars(q);
        assert(c.skip("h:"@.len() as int) =~= hex_chars(p));
        assert(d.skip("h:"@.len() as int) =~= hex_chars(q));
        hexadecimal_is_told_apart(p, q);
    }
}

proof fn kinds_are_one_byte()
    ensures
        encode_utf8("t"@) == seq![0x74u8],
        encode_utf8("n"@) == seq![0x6eu8],
        encode_utf8("s"@) == seq![0x73u8],
{
    reveal_strlit("t");
    reveal_strlit("n");
    reveal_strlit("s");
    is_ascii_chars_encode_utf8("t"@);
    is_ascii_chars_encode_utf8("n"@);
    is_ascii_chars_encode_utf8("s"@);
    assert(encode_utf8("t"@) =~= seq![0x74u8]);
    assert(encode_utf8("n"@) =~= seq![0x6eu8]);
    assert(encode_utf8("s"@) =~= seq![0x73u8]);
}

/// Every member of a document is digested in its place: the member of an array at
/// its position, the member of an object under its key; and null stays null.
pub proof fn every_leaf_is_digested_in_its_place(
    key: Seq<u8>,
    s: Seq<JsonView>,
    m: Seq<(Seq<char>, JsonView)>,
    i: int,
)
    ensures
        digested(key, JsonView::Null) is Null,
        digested(key, JsonView::Array(s)) matches JsonView::Array(d) && d.len() == s.len() && (0 <= i
            < s.len() ==> d[i] == digested(key, s[i])),
        digested(key, JsonView::Object(m)) matches JsonView::Object(d) && d.len() == m.len() && (0
            <= i < m.len() ==> d[i].0 == m[i].0 && d[i].1 == digested(key, m[i].1)),
{
}

/// The id of a key is eight bytes of the keyed hash of a fixed label, so it rests
/// on the secret alone and is told apart wherever those bytes differ.
pub proof fn key_ids_are_read_off_the_label(key: Seq<u8>, other: Seq<u8>)
    ensures
        ({
            let label = encode_utf8("deja-capture-key-id"@).push(0);
            &&& key_id(key) == hex_chars(hmac_sha256(key, label).subrange(0, 8))
            &&& key_id(key) == key_id(other) ==> hmac_sha256(key, label).subrange(0, 8)
                == hmac_sha256(other, label).subrange(0, 8)
        }),
{
    let label = encode_utf8("deja-capture-key-id"@).push(0);
    assert(message(encode_utf8(KEY_ID_LABEL@), Seq::empty()) =~= label);
    hexadecimal_is_told_apart(
        hmac_sha256(key, label).subrange(0, 8),
        hmac_sha256(other, label).subrange(0, 8),
    );
}

/// The place of a process's capture key. It is filled once, at boot, with a
/// key or with the decision that there is none.
pub struct CaptureKeySlot {
    installed: Option<Option<CaptureKey>>,
}

impl CaptureKeySlot {
    /// Whether the slot was filled.
    pub closed spec fn is_installed(self) -> bool {
        self.installed is Some
    }

    /// The installed key, if any.
    pub closed spec fn key(self) -> Option<CaptureKey> {
        match self.installed {
            Some(key) => key,
            None => None,
        }
    }

    /// A slot not yet filled.
    pub fn empty() -> (r: CaptureKeySlot)
        ensures
            !r.is_installed(),
            r.key() is None,
    {
        CaptureKeySlot { installed: None }
    }
}

/// Installs the capture key, once. No secret, or an empty one, means no key:
/// captures then fall back to their masked form.
pub fn install_capture_key(slot: &mut CaptureKeySlot, secret: Option<&[u8]>) -> (r: Result<
    (),
    &'static str,
>)
    ensures
        r is Ok <==> !old(slot).is_installed(),
        r is Ok ==> final(slot).is_installed() && match secret {
            Some(bytes) => {
                &&& final(slot).key() is Some <==> bytes@.len() > 0
                &&& final(slot).key() matches Some(k) ==> k.secret() == bytes@
            },
            None => final(slot).key() is None,
        },
        r matches Err(reason) ==> reason@ == "capture key already installed"@ && *final(slot)
            == *old(slot),
{
    if slot.installed.is_some() {
        return Err("capture key already installed");
    }
    slot.installed = Some(
        match secret {
            Some(bytes) => CaptureKey::new(bytes),
            None => None,
        },
    );
    Ok(())
}

/// The installed capture key, if any.
pub fn capture_key(slot: &CaptureKeySlot) -> (r: Option<&CaptureKey>)
    ensures
        match r {
            Some(k) => slot.key() == Some(*k),
            None => slot.key() is None,
        },
{
    match &slot.installed {
        Some(Some(key)) => Some(key),
        _ => None,
    }
}

} // verus!
