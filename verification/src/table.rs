//! A table from keys to values, and counters kept by key.

use vstd::prelude::*;
use crate::event::CallsiteSource;
use crate::text::{opt_str, opt_text_eq, text_eq};

verus! {

/// A value that others are kept under.
pub trait TableKey: Sized {
    /// What the key says: two keys that say the same are one key.
    type Key;

    spec fn key(&self) -> Self::Key;

    fn same_key(&self, other: &Self) -> (r: bool)
        ensures
            r == (self.key() == other.key()),
    ;
}

/// A table from keys to values.
pub struct Table<K: TableKey, V> {
    entries: Vec<(K, V)>,
}

/// The first value under a key.
spec fn first<K: TableKey, V>(s: Seq<(K, V)>, key: K::Key) -> Option<V>
    decreases s.len(),
{
    if s.len() == 0 {
        None
    } else if s[0].0.key() == key {
        Some(s[0].1)
    } else {
        first(s.drop_first(), key)
    }
}

proof fn first_at<K: TableKey, V>(s: Seq<(K, V)>, key: K::Key, i: int)
    requires
        0 <= i < s.len(),
        s[i].0.key() == key,
        forall|j: int| 0 <= j < i ==> (#[trigger] s[j]).0.key() != key,
    ensures
        first(s, key) == Some(s[i].1),
    decreases s.len(),
{
    if i > 0 {
        assert(s[0].0.key() != key);
        assert forall|j: int| 0 <= j < i - 1 implies (#[trigger] s.drop_first()[j]).0.key()
            != key by {
            assert(s[j + 1].0.key() != key);
        }
        first_at(s.drop_first(), key, i - 1);
    }
}

proof fn first_nowhere<K: TableKey, V>(s: Seq<(K, V)>, key: K::Key)
    requires
        forall|j: int| 0 <= j < s.len() ==> (#[trigger] s[j]).0.key() != key,
    ensures
        first(s, key) is None,
    decreases s.len(),
{
    if s.len() > 0 {
        assert(s[0].0.key() != key);
        assert forall|j: int| 0 <= j < s.drop_first().len() implies (
        #[trigger] s.drop_first()[j]).0.key() != key by {
            assert(s[j + 1].0.key() != key);
        }
        first_nowhere(s.drop_first(), key);
    }
}

proof fn first_after_update<K: TableKey, V>(s: Seq<(K, V)>, i: int, m: (K, V), key: K::Key)
    requires
        0 <= i < s.len(),
        m.0.key() == s[i].0.key(),
        key != m.0.key(),
    ensures
        first(s.update(i, m), key) == first(s, key),
    decreases s.len(),
{
    if i > 0 {
        if s[0].0.key() != key {
            assert(s.update(i, m).drop_first() =~= s.drop_first().update(i - 1, m));
            first_after_update(s.drop_first(), i - 1, m, key);
        }
    } else {
        assert(s.update(i, m).drop_first() =~= s.drop_first());
    }
}

proof fn first_after_push<K: TableKey, V>(s: Seq<(K, V)>, m: (K, V), key: K::Key)
    requires
        key != m.0.key(),
    ensures
        first(s.push(m), key) == first(s, key),
    decreases s.len(),
{
    if s.len() > 0 {
        if s[0].0.key() != key {
            assert(s.push(m).drop_first() =~= s.drop_first().push(m));
            first_after_push(s.drop_first(), m, key);
        }
    } else {
        assert(s.push(m).drop_first() =~= s);
    }
}

proof fn first_after_remove<K: TableKey, V>(s: Seq<(K, V)>, i: int, key: K::Key)
    requires
        0 <= i < s.len(),
        key != s[i].0.key(),
    ensures
        first(s.remove(i), key) == first(s, key),
    decreases s.len(),
{
    if i > 0 {
        if s[0].0.key() != key {
            assert(s.remove(i).drop_first() =~= s.drop_first().remove(i - 1));
            first_after_remove(s.drop_first(), i - 1, key);
        }
    } else {
        assert(s.remove(i) =~= s.drop_first());
    }
}

impl<K: TableKey, V> Table<K, V> {
    /// The value under a key.
    pub closed spec fn at(self, key: K::Key) -> Option<V> {
        first(self.entries@, key)
    }

    /// How many keys the table holds.
    pub closed spec fn spec_len(self) -> nat {
        self.entries@.len()
    }

    /// A table that holds nothing.
    pub fn new() -> (r: Table<K, V>)
        ensures
            forall|key: K::Key| #[trigger] r.at(key) is None,
            r.spec_len() == 0,
    {
        Table { entries: Vec::new() }
    }

    /// How many keys the table holds.
    pub fn len(&self) -> (r: usize)
        ensures
            r == self.spec_len(),
    {
        self.entries.len()
    }

    #[verifier::loop_isolation(false)]
    fn find(&self, key: &K) -> (r: Option<usize>)
        ensures
            match r {
                Some(i) => {
                    &&& i < self.entries@.len()
                    &&& self.entries@[i as int].0.key() == key.key()
                    &&& forall|j: int|
                        0 <= j < i ==> (#[trigger] self.entries@[j]).0.key() != key.key()
                },
                None => forall|j: int|
                    0 <= j < self.entries@.len() ==> (#[trigger] self.entries@[j]).0.key()
                        != key.key(),
            },
    {
        let mut i: usize = 0;
        while i < self.entries.len()
            invariant
                0 <= i <= self.entries@.len(),
                forall|j: int| 0 <= j < i ==> (#[trigger] self.entries@[j]).0.key() != key.key(),
            decreases self.entries@.len() - i,
        {
            if self.entries[i].0.same_key(key) {
                return Some(i);
            }
            i = i + 1;
        }
        None
    }

    /// The value under a key.
    pub fn get(&self, key: &K) -> (r: Option<&V>)
        ensures
            match r {
                Some(v) => self.at(key.key()) == Some(*v),
                None => self.at(key.key()) is None,
            },
    {
        match self.find(key) {
            Some(i) => {
                proof {
                    first_at(self.entries@, key.key(), i as int);
                }
                Some(&self.entries[i].1)
            },
            None => {
                proof {
                    first_nowhere(self.entries@, key.key());
                }
                None
            },
        }
    }

    /// Keeps a value under a key, in place of the one it had.
    pub fn put(&mut self, key: K, value: V)
        ensures
            final(self).at(key.key()) == Some(value),
            forall|k: K::Key| k != key.key() ==> #[trigger] final(self).at(k) == old(self).at(k),
            final(self).spec_len() == old(self).spec_len() + (if old(self).at(key.key()) is Some {
                0nat
            } else {
                1nat
            }),
    {
        let ghost was = self.entries@;
        let ghost k = key.key();
        match self.find(&key) {
            Some(i) => {
                proof {
                    first_at(was, k, i as int);
                    assert forall|q: K::Key| q != k implies #[trigger] first(
                        was.update(i as int, (key, value)),
                        q,
                    ) == first(was, q) by {
                        first_after_update(was, i as int, (key, value), q);
                    }
                }
                self.entries.set(i, (key, value));
                proof {
                    assert forall|j: int| 0 <= j < i implies (
                    #[trigger] self.entries@[j]).0.key() != k by {
                        assert(was[j].0.key() != k);
                    }
                    first_at(self.entries@, k, i as int);
                }
            },
            None => {
                proof {
                    first_nowhere(was, k);
                    assert forall|q: K::Key| q != k implies #[trigger] first(
                        was.push((key, value)),
                        q,
                    ) == first(was, q) by {
                        first_after_push(was, (key, value), q);
                    }
                }
                self.entries.push((key, value));
                proof {
                    assert forall|j: int| 0 <= j < was.len() implies (
                    #[trigger] self.entries@[j]).0.key() != k by {
                        assert(was[j].0.key() != k);
                    }
                    first_at(self.entries@, k, was.len() as int);
                }
            },
        }
    }

    /// Forgets a key.
    #[verifier::loop_isolation(false)]
    pub fn remove(&mut self, key: &K)
        ensures
            final(self).at(key.key()) is None,
            forall|k: K::Key| k != key.key() ==> #[trigger] final(self).at(k) == old(self).at(k),
    {
        let ghost was = self.entries@;
        let mut i: usize = 0;
        while i < self.entries.len()
            invariant
                0 <= i <= self.entries@.len(),
                forall|j: int| 0 <= j < i ==> (#[trigger] self.entries@[j]).0.key() != key.key(),
                forall|k: K::Key|
                    k != key.key() ==> #[trigger] first(self.entries@, k) == first(was, k),
            decreases self.entries@.len() - i,
        {
            let ghost now = self.entries@;
            if self.entries[i].0.same_key(key) {
                proof {
                    assert forall|k: K::Key| k != key.key() implies #[trigger] first(
                        now.remove(i as int),
                        k,
                    ) == first(was, k) by {
                        first_after_remove(now, i as int, k);
                        assert(first(now, k) == first(was, k));
                    }
                }
                self.entries.remove(i);
                proof {
                    assert forall|j: int| 0 <= j < i implies (
                    #[trigger] self.entries@[j]).0.key() != key.key() by {
                        assert(now[j].0.key() != key.key());
                    }
                }
            } else {
                i = i + 1;
            }
        }
        proof {
            first_nowhere(self.entries@, key.key());
        }
    }
}

impl<K: TableKey> Table<K, u64> {
    /// The number a key is given next, where its numbering starts at `start`.
    pub open spec fn upcoming(self, key: K::Key, start: u64) -> u64 {
        match self.at(key) {
            Some(n) => n,
            None => start,
        }
    }

    /// Gives a key its next number.
    pub fn take_number(&mut self, key: K, start: u64) -> (r: u64)
        requires
            old(self).upcoming(key.key(), start) < u64::MAX,
        ensures
            r == old(self).upcoming(key.key(), start),
            final(self).at(key.key()) == Some((r + 1) as u64),
            forall|k: K::Key| k != key.key() ==> #[trigger] final(self).at(k) == old(self).at(k),
    {
        let number: u64 = match self.get(&key) {
            Some(n) => *n,
            None => start,
        };
        self.put(key, number + 1);
        number
    }
}

/// A correlation, or the absence of one, as a key.
#[derive(Debug)]
pub struct CorrelationKey {
    pub correlation_id: Option<String>,
}

impl TableKey for CorrelationKey {
    type Key = Option<Seq<char>>;

    open spec fn key(&self) -> Option<Seq<char>> {
        self.correlation_id.deep_view()
    }

    fn same_key(&self, other: &CorrelationKey) -> (r: bool) {
        opt_text_eq(opt_str(&self.correlation_id), opt_str(&other.correlation_id))
    }
}

/// A text as a key.
#[derive(Debug)]
pub struct TextKey {
    pub text: String,
}

impl TableKey for TextKey {
    type Key = Seq<char>;

    open spec fn key(&self) -> Seq<char> {
        self.text@
    }

    fn same_key(&self, other: &TextKey) -> (r: bool) {
        text_eq(self.text.as_str(), other.text.as_str())
    }
}

/// A lineage bucket of a correlation, as a key.
#[derive(Debug)]
pub struct BucketKey {
    pub correlation_id: Option<String>,
    pub bucket_id: String,
}

impl TableKey for BucketKey {
    type Key = (Option<Seq<char>>, Seq<char>);

    open spec fn key(&self) -> (Option<Seq<char>>, Seq<char>) {
        (self.correlation_id.deep_view(), self.bucket_id@)
    }

    fn same_key(&self, other: &BucketKey) -> (r: bool) {
        opt_text_eq(opt_str(&self.correlation_id), opt_str(&other.correlation_id)) && text_eq(
            self.bucket_id.as_str(),
            other.bucket_id.as_str(),
        )
    }
}

/// What the occurrences of a call site are counted under.
#[derive(Debug)]
pub struct CallsiteKey {
    pub correlation_id: Option<String>,
    pub bucket_id: Option<String>,
    pub source: CallsiteSource,
    pub scope: Option<String>,
}

/// What a call-site key says.
pub struct CallsiteKeyView {
    pub correlation_id: Option<Seq<char>>,
    pub bucket_id: Option<Seq<char>>,
    pub source: CallsiteSource,
    pub scope: Option<Seq<char>>,
}

impl TableKey for CallsiteKey {
    type Key = CallsiteKeyView;

    open spec fn key(&self) -> CallsiteKeyView {
        CallsiteKeyView {
            correlation_id: self.correlation_id.deep_view(),
            bucket_id: self.bucket_id.deep_view(),
            source: self.source,
            scope: self.scope.deep_view(),
        }
    }

    fn same_key(&self, other: &CallsiteKey) -> (r: bool) {
        opt_text_eq(opt_str(&self.correlation_id), opt_str(&other.correlation_id)) && opt_text_eq(
            opt_str(&self.bucket_id),
            opt_str(&other.bucket_id),
        ) && self.source == other.source && opt_text_eq(opt_str(&self.scope), opt_str(&other.scope))
    }
}

/// Keys are one key only if they agree in all they hold.
pub proof fn keys_hold_all_their_parts(
    a: CallsiteKey,
    b: CallsiteKey,
    c: BucketKey,
    d: BucketKey,
    e: CorrelationKey,
    f: CorrelationKey,
)
    ensures
        a.key() == b.key() <==> a.correlation_id.deep_view() == b.correlation_id.deep_view()
            && a.bucket_id.deep_view() == b.bucket_id.deep_view() && a.source == b.source
            && a.scope.deep_view() == b.scope.deep_view(),
        c.key() == d.key() <==> c.correlation_id.deep_view() == d.correlation_id.deep_view()
            && c.bucket_id@ == d.bucket_id@,
        e.key() == f.key() <==> e.correlation_id.deep_view() == f.correlation_id.deep_view(),
{
}

} // verus!
