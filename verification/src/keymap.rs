//! A map from byte strings to values, kept in ascending order of its keys.

use vstd::prelude::*;
use vstd::utf8::{encode_utf8, encode_utf8_decode_utf8};

verus! {

/// A key that is compared by its bytes.
pub trait ByteKey {
    spec fn key(&self) -> Seq<u8>;

    fn key_bytes(&self) -> (bytes: &[u8])
        ensures
            bytes@ == self.key(),
    ;
}

impl ByteKey for String {
    open spec fn key(&self) -> Seq<u8> {
        vstd::utf8::encode_utf8(self@)
    }

    fn key_bytes(&self) -> (bytes: &[u8]) {
        self.as_str().as_bytes()
    }
}

/// Byte strings are ordered by their first differing byte; a prefix comes first.
pub open spec fn key_less(a: Seq<u8>, b: Seq<u8>) -> bool
    decreases a.len(),
{
    if a.len() == 0 || b.len() == 0 {
        a.len() == 0 && b.len() > 0
    } else if a[0] == b[0] {
        key_less(a.drop_first(), b.drop_first())
    } else {
        a[0] < b[0]
    }
}

pub proof fn lemma_key_less_irreflexive(a: Seq<u8>)
    ensures
        !key_less(a, a),
    decreases a.len(),
{
    if a.len() > 0 {
        lemma_key_less_irreflexive(a.drop_first());
    }
}

pub proof fn lemma_key_less_transitive(a: Seq<u8>, b: Seq<u8>, c: Seq<u8>)
    requires
        key_less(a, b),
        key_less(b, c),
    ensures
        key_less(a, c),
    decreases a.len(),
{
    if a.len() > 0 && a[0] == b[0] && b[0] == c[0] {
        lemma_key_less_transitive(a.drop_first(), b.drop_first(), c.drop_first());
    }
}

pub proof fn lemma_key_less_total(a: Seq<u8>, b: Seq<u8>)
    ensures
        key_less(a, b) || a == b || key_less(b, a),
    decreases a.len(),
{
    if a.len() == 0 || b.len() == 0 {
        if a.len() == 0 && b.len() == 0 {
            assert(a =~= b);
        }
    } else if a[0] == b[0] {
        lemma_key_less_total(a.drop_first(), b.drop_first());
        if a.drop_first() == b.drop_first() {
            assert(a =~= seq![a[0]] + a.drop_first());
            assert(b =~= seq![b[0]] + b.drop_first());
        }
    }
}

/// Whether one byte string comes before another.
pub fn key_is_less(a: &[u8], b: &[u8]) -> (less: bool)
    ensures
        less == key_less(a@, b@),
{
    let mut i: usize = 0;
    assert(a@.skip(0) =~= a@);
    assert(b@.skip(0) =~= b@);
    while i < a.len() && i < b.len() && a[i] == b[i]
        invariant
            0 <= i <= a.len(),
            i <= b.len(),
            key_less(a@, b@) == key_less(a@.skip(i as int), b@.skip(i as int)),
        decreases a.len() - i,
    {
        assert(a@.skip(i as int).drop_first() =~= a@.skip(i + 1));
        assert(b@.skip(i as int).drop_first() =~= b@.skip(i + 1));
        i = i + 1;
    }
    if i >= a.len() || i >= b.len() {
        i >= a.len() && i < b.len()
    } else {
        a[i] < b[i]
    }
}

/// Keys strictly ascending.
pub open spec fn ascending<T>(pairs: Seq<(Seq<u8>, T)>) -> bool {
    forall|i: int, j: int|
        0 <= i < j < pairs.len() ==> key_less((#[trigger] pairs[i]).0, (#[trigger] pairs[j]).0)
}

/// The first position whose key does not come before the given one.
pub open spec fn rank<T>(pairs: Seq<(Seq<u8>, T)>, key: Seq<u8>) -> int
    decreases pairs.len(),
{
    if pairs.len() == 0 || !key_less(pairs[0].0, key) {
        0
    } else {
        1 + rank(pairs.drop_first(), key)
    }
}

pub open spec fn has_key<T>(pairs: Seq<(Seq<u8>, T)>, key: Seq<u8>) -> bool {
    rank(pairs, key) < pairs.len() && pairs[rank(pairs, key)].0 == key
}

/// The value kept under a key.
pub open spec fn lookup<T>(pairs: Seq<(Seq<u8>, T)>, key: Seq<u8>) -> Option<T> {
    if has_key(pairs, key) {
        Some(pairs[rank(pairs, key)].1)
    } else {
        None
    }
}

/// The pairs with a value put under a key, in place of any that was there.
pub open spec fn with_entry<T>(pairs: Seq<(Seq<u8>, T)>, key: Seq<u8>, value: T) -> Seq<
    (Seq<u8>, T),
> {
    if has_key(pairs, key) {
        pairs.update(rank(pairs, key), (key, value))
    } else {
        pairs.insert(rank(pairs, key), (key, value))
    }
}

/// The pairs without the one under a key.
pub open spec fn without_entry<T>(pairs: Seq<(Seq<u8>, T)>, key: Seq<u8>) -> Seq<(Seq<u8>, T)> {
    if has_key(pairs, key) {
        pairs.remove(rank(pairs, key))
    } else {
        pairs
    }
}

pub proof fn lemma_rank<T>(pairs: Seq<(Seq<u8>, T)>, key: Seq<u8>)
    ensures
        0 <= rank(pairs, key) <= pairs.len(),
        forall|i: int| 0 <= i < rank(pairs, key) ==> key_less((#[trigger] pairs[i]).0, key),
        rank(pairs, key) < pairs.len() ==> !key_less(pairs[rank(pairs, key)].0, key),
    decreases pairs.len(),
{
    if pairs.len() > 0 && key_less(pairs[0].0, key) {
        let rest = pairs.drop_first();
        lemma_rank(rest, key);
        assert forall|i: int| 0 <= i < rank(pairs, key) implies key_less(
            (#[trigger] pairs[i]).0,
            key,
        ) by {
            if i > 0 {
                assert(pairs[i] == rest[i - 1]);
            }
        }
    }
}

pub proof fn lemma_rank_is<T>(pairs: Seq<(Seq<u8>, T)>, key: Seq<u8>, at: int)
    requires
        0 <= at <= pairs.len(),
        forall|i: int| 0 <= i < at ==> key_less((#[trigger] pairs[i]).0, key),
        at < pairs.len() ==> !key_less(pairs[at].0, key),
    ensures
        rank(pairs, key) == at,
{
    lemma_rank(pairs, key);
    let r = rank(pairs, key);
    if r < at {
        assert(key_less(pairs[r].0, key));
    } else if at < r {
        assert(key_less(pairs[at].0, key));
    }
}

/// Putting an entry in keeps the keys ascending.
pub proof fn with_entry_ascending<T>(pairs: Seq<(Seq<u8>, T)>, key: Seq<u8>, value: T)
    requires
        ascending(pairs),
    ensures
        ascending(with_entry(pairs, key, value)),
{
    lemma_rank(pairs, key);
    let r = rank(pairs, key);
    let new = with_entry(pairs, key, value);
    if has_key(pairs, key) {
        assert forall|i: int, j: int| 0 <= i < j < new.len() implies key_less(
            (#[trigger] new[i]).0,
            (#[trigger] new[j]).0,
        ) by {
            assert(new[i].0 == pairs[i].0 && new[j].0 == pairs[j].0);
        }
    } else {
        if r < pairs.len() {
            lemma_key_less_total(pairs[r].0, key);
        }
        assert forall|i: int, j: int| 0 <= i < j < new.len() implies key_less(
            (#[trigger] new[i]).0,
            (#[trigger] new[j]).0,
        ) by {
            if j < r {
                assert(new[i] == pairs[i] && new[j] == pairs[j]);
            } else if j == r {
                assert(new[i] == pairs[i]);
            } else if i < r {
                assert(new[i] == pairs[i] && new[j] == pairs[j - 1]);
            } else if i == r {
                assert(new[j] == pairs[j - 1]);
                if j - 1 > r {
                    lemma_key_less_transitive(key, pairs[r].0, pairs[j - 1].0);
                }
            } else {
                assert(new[i] == pairs[i - 1] && new[j] == pairs[j - 1]);
            }
        }
    }
}

/// Taking an entry out keeps the keys ascending.
pub proof fn without_entry_ascending<T>(pairs: Seq<(Seq<u8>, T)>, key: Seq<u8>)
    requires
        ascending(pairs),
    ensures
        ascending(without_entry(pairs, key)),
{
    lemma_rank(pairs, key);
    let r = rank(pairs, key);
    let new = without_entry(pairs, key);
    if has_key(pairs, key) {
        assert forall|i: int, j: int| 0 <= i < j < new.len() implies key_less(
            (#[trigger] new[i]).0,
            (#[trigger] new[j]).0,
        ) by {
            let i0 = if i < r { i } else { i + 1 };
            let j0 = if j < r { j } else { j + 1 };
            assert(new[i] == pairs[i0] && new[j] == pairs[j0]);
        }
    }
}

/// In ascending pairs, a key is found wherever it stands.
pub proof fn lookup_at<T>(pairs: Seq<(Seq<u8>, T)>, at: int)
    requires
        ascending(pairs),
        0 <= at < pairs.len(),
    ensures
        lookup(pairs, pairs[at].0) == Some(pairs[at].1),
{
    let key = pairs[at].0;
    lemma_key_less_irreflexive(key);
    lemma_rank_is(pairs, key, at);
}

/// In ascending pairs, a key that stands nowhere is not found.
pub proof fn lookup_absent<T>(pairs: Seq<(Seq<u8>, T)>, key: Seq<u8>)
    requires
        forall|i: int| 0 <= i < pairs.len() ==> (#[trigger] pairs[i]).0 != key,
    ensures
        lookup(pairs, key) is None,
{
    lemma_rank(pairs, key);
}

/// After a value is put under a key, that key yields it and every other key what
/// it yielded before.
pub proof fn lookup_with_entry<T>(
    pairs: Seq<(Seq<u8>, T)>,
    key: Seq<u8>,
    value: T,
    other: Seq<u8>,
)
    requires
        ascending(pairs),
    ensures
        lookup(with_entry(pairs, key, value), other) == if other == key {
            Some(value)
        } else {
            lookup(pairs, other)
        },
{
    lemma_rank(pairs, key);
    lemma_rank(pairs, other);
    let r = rank(pairs, key);
    let new = with_entry(pairs, key, value);
    with_entry_ascending(pairs, key, value);
    if other == key {
        assert(new[r] == (key, value));
        lookup_at(new, r);
    } else if has_key(pairs, other) {
        let q = rank(pairs, other);
        let q_new = if has_key(pairs, key) || q < r { q } else { q + 1 };
        assert(new[q_new] == pairs[q]);
        lookup_at(new, q_new);
    } else {
        assert forall|i: int| 0 <= i < new.len() implies (#[trigger] new[i]).0 != other by {
            if i != r {
                let i0 = if has_key(pairs, key) || i < r { i } else { i - 1 };
                assert(new[i] == pairs[i0]);
                lookup_at(pairs, i0);
            }
        }
        lookup_absent(new, other);
    }
}

/// After a key is taken out, it yields nothing and every other key what it yielded
/// before.
pub proof fn lookup_without_entry<T>(pairs: Seq<(Seq<u8>, T)>, key: Seq<u8>, other: Seq<u8>)
    requires
        ascending(pairs),
    ensures
        lookup(without_entry(pairs, key), other) == if other == key {
            None
        } else {
            lookup(pairs, other)
        },
{
    lemma_rank(pairs, key);
    lemma_rank(pairs, other);
    let r = rank(pairs, key);
    let new = without_entry(pairs, key);
    without_entry_ascending(pairs, key);
    if other == key || !has_key(pairs, other) {
        assert forall|i: int| 0 <= i < new.len() implies (#[trigger] new[i]).0 != other by {
            let i0 = if !has_key(pairs, key) || i < r { i } else { i + 1 };
            assert(new[i] == pairs[i0]);
            lookup_at(pairs, i0);
            lemma_key_less_irreflexive(other);
        }
        lookup_absent(new, other);
    } else {
        let q = rank(pairs, other);
        let q_new = if !has_key(pairs, key) || q < r { q } else { q - 1 };
        assert(new[q_new] == pairs[q]);
        lookup_at(new, q_new);
    }
}

/// Entries with their keys taken as bytes.
pub open spec fn pairs_of<K: ByteKey, V>(entries: Seq<(K, V)>) -> Seq<(Seq<u8>, V)> {
    Seq::new(entries.len(), |i: int| (entries[i].0.key(), entries[i].1))
}

/// A pair put after all pairs with lesser keys comes last.
pub proof fn lemma_appended<T>(pairs: Seq<(Seq<u8>, T)>, k: int)
    requires
        ascending(pairs),
        0 <= k < pairs.len(),
    ensures
        with_entry(pairs.take(k), pairs[k].0, pairs[k].1) == pairs.take(k + 1),
{
    assert forall|i: int| 0 <= i < k implies key_less(
        (#[trigger] pairs.take(k)[i]).0,
        pairs[k].0,
    ) by {
        assert(pairs.take(k)[i] == pairs[i]);
    }
    lemma_rank_is(pairs.take(k), pairs[k].0, k);
    assert(with_entry(pairs.take(k), pairs[k].0, pairs[k].1) =~= pairs.take(k + 1));
}

/// The pairs of a map into which entries are put one after the other.
pub open spec fn dict_of<T>(entries: Seq<(Seq<char>, T)>) -> Seq<(Seq<u8>, T)>
    decreases entries.len(),
{
    if entries.len() == 0 {
        seq![]
    } else {
        with_entry(dict_of(entries.drop_last()), encode_utf8(entries.last().0), entries.last().1)
    }
}

/// The value that was put under a key last.
pub open spec fn last_put<T>(entries: Seq<(Seq<char>, T)>, key: Seq<char>) -> Option<T>
    decreases entries.len(),
{
    if entries.len() == 0 {
        None
    } else if entries.last().0 == key {
        Some(entries.last().1)
    } else {
        last_put(entries.drop_last(), key)
    }
}

/// An entry whose key no later entry has is the last under its key.
pub proof fn last_put_at<T>(entries: Seq<(Seq<char>, T)>, at: int)
    requires
        0 <= at < entries.len(),
        forall|i: int| at < i < entries.len() ==> (#[trigger] entries[i]).0 != entries[at].0,
    ensures
        last_put(entries, entries[at].0) == Some(entries[at].1),
    decreases entries.len(),
{
    if at < entries.len() - 1 {
        let before = entries.drop_last();
        assert(entries[entries.len() - 1].0 != entries[at].0);
        assert forall|i: int| at < i < before.len() implies (#[trigger] before[i]).0
            != before[at].0 by {
            assert(before[i] == entries[i]);
        }
        last_put_at(before, at);
    }
}

/// A map made of entries gives under each key the value put there last.
pub proof fn dict_of_gives_last<T>(entries: Seq<(Seq<char>, T)>, key: Seq<char>)
    ensures
        ascending(dict_of(entries)),
        lookup(dict_of(entries), encode_utf8(key)) == last_put(entries, key),
    decreases entries.len(),
{
    if entries.len() == 0 {
        lookup_absent(dict_of(entries), encode_utf8(key));
    } else {
        let before = entries.drop_last();
        let last = entries.last();
        dict_of_gives_last(before, key);
        with_entry_ascending(dict_of(before), encode_utf8(last.0), last.1);
        lookup_with_entry(dict_of(before), encode_utf8(last.0), last.1, encode_utf8(key));
        if last.0 != key {
            encode_utf8_decode_utf8(last.0);
            encode_utf8_decode_utf8(key);
        }
    }
}

/// A map from byte-string keys to values; each key occurs once.
#[derive(Debug)]
pub struct KeyMap<K: ByteKey, V> {
    pub(crate) entries: Vec<(K, V)>,
}

impl<K: ByteKey, V> View for KeyMap<K, V> {
    type V = Seq<(Seq<u8>, V)>;

    closed spec fn view(&self) -> Seq<(Seq<u8>, V)> {
        pairs_of(self.entries@)
    }
}

impl<K: ByteKey, V> KeyMap<K, V> {
    #[verifier::type_invariant]
    spec fn ordered(self) -> bool {
        ascending(self@)
    }

    pub(crate) proof fn lemma_view(self)
        ensures
            self@.len() == self.entries@.len(),
            forall|i: int|
                0 <= i < self@.len() ==> #[trigger] self@[i] == (
                    self.entries@[i].0.key(),
                    self.entries@[i].1,
                ),
    {
    }

    pub fn new() -> (map: Self)
        ensures
            map@ == Seq::<(Seq<u8>, V)>::empty(),
    {
        let map = KeyMap { entries: Vec::new() };
        assert(map@ =~= Seq::<(Seq<u8>, V)>::empty());
        map
    }

    /// A map of entries that are in ascending order of their keys.
    pub fn from_ascending(entries: Vec<(K, V)>) -> (map: Self)
        requires
            ascending(pairs_of(entries@)),
        ensures
            map@ == pairs_of(entries@),
    {
        KeyMap { entries }
    }

    pub fn len(&self) -> (n: usize)
        ensures
            n == self@.len(),
    {
        self.entries.len()
    }

    fn position(&self, key: &[u8]) -> (at: usize)
        ensures
            at == rank(self@, key@),
            at <= self@.len(),
    {
        let mut i: usize = 0;
        while i < self.entries.len() && key_is_less(self.entries[i].0.key_bytes(), key)
            invariant
                0 <= i <= self.entries.len(),
                forall|j: int| 0 <= j < i ==> key_less((#[trigger] self@[j]).0, key@),
            decreases self.entries.len() - i,
        {
            assert(self@[i as int].0 == self.entries@[i as int].0.key());
            i = i + 1;
        }
        proof {
            if i < self.entries.len() {
                assert(self@[i as int].0 == self.entries@[i as int].0.key());
            }
            lemma_rank_is(self@, key@, i as int);
        }
        i
    }

    /// The value under a key.
    pub fn get(&self, key: &[u8]) -> (value: Option<&V>)
        ensures
            match value {
                Some(value) => lookup(self@, key@) == Some(*value),
                None => lookup(self@, key@) is None,
            },
    {
        let at = self.position(key);
        if at < self.entries.len() && crate::text::same_bytes(self.entries[at].0.key_bytes(), key) {
            assert(self@[at as int] == (self.entries@[at as int].0.key(), self.entries@[at as int].1));
            Some(&self.entries[at].1)
        } else {
            None
        }
    }

    /// Put a value under a key, in place of any that was there.
    pub fn insert(&mut self, key: K, value: V)
        ensures
            final(self)@ == with_entry(old(self)@, key.key(), value),
    {
        proof {
            use_type_invariant(&*self);
            with_entry_ascending(self@, key.key(), value);
        }
        let at = self.position(key.key_bytes());
        let found = at < self.entries.len() && crate::text::same_bytes(
            self.entries[at].0.key_bytes(),
            key.key_bytes(),
        );
        let ghost before = self@;
        let ghost target = with_entry(before, key.key(), value);
        let ghost new_key = key.key();
        let mut entries: Vec<(K, V)> = Vec::new();
        std::mem::swap(&mut entries, &mut self.entries);
        let ghost old_entries = entries@;
        assert(forall|i: int|
            0 <= i < before.len() ==> #[trigger] before[i] == (
                old_entries[i].0.key(),
                old_entries[i].1,
            ));
        if found {
            entries.set(at, (key, value));
        } else {
            entries.insert(at, (key, value));
        }
        assert(pairs_of(entries@) =~= target);
        self.entries = entries;
    }

    /// Take out the value under a key.
    pub fn remove(&mut self, key: &[u8]) -> (value: Option<V>)
        ensures
            value == lookup(old(self)@, key@),
            final(self)@ == without_entry(old(self)@, key@),
    {
        proof {
            use_type_invariant(&*self);
            without_entry_ascending(self@, key@);
        }
        let at = self.position(key);
        let found = at < self.entries.len() && crate::text::same_bytes(
            self.entries[at].0.key_bytes(),
            key,
        );
        if !found {
            return None;
        }
        let ghost before = self@;
        let ghost target = without_entry(before, key@);
        let mut entries: Vec<(K, V)> = Vec::new();
        std::mem::swap(&mut entries, &mut self.entries);
        let ghost old_entries = entries@;
        assert(forall|i: int|
            0 <= i < before.len() ==> #[trigger] before[i] == (
                old_entries[i].0.key(),
                old_entries[i].1,
            ));
        let (_, value) = entries.remove(at);
        assert(pairs_of(entries@) =~= target);
        self.entries = entries;
        Some(value)
    }

    /// The entry at a position in ascending order of the keys.
    pub fn entry(&self, at: usize) -> (entry: (&K, &V))
        requires
            at < self@.len(),
        ensures
            entry.0.key() == self@[at as int].0,
            *entry.1 == self@[at as int].1,
    {
        (&self.entries[at].0, &self.entries[at].1)
    }

    /// The entries in ascending order of their keys.
    pub fn into_entries(self) -> (entries: Vec<(K, V)>)
        ensures
            entries@.len() == self@.len(),
            forall|i: int|
                0 <= i < entries@.len() ==> (#[trigger] entries@[i]).0.key() == self@[i].0
                    && entries@[i].1 == self@[i].1,
            ascending(self@),
    {
        proof {
            use_type_invariant(&self);
        }
        self.entries
    }

    /// The keys of a map are strictly ascending.
    pub(crate) fn check_ascending(&self)
        ensures
            ascending(self@),
    {
        proof {
            use_type_invariant(self);
        }
    }
}

/// Of two keys the one comes first that is less at the first byte in which they differ, or
/// that ends where the other goes on.
pub proof fn first_difference_decides(head: Seq<u8>, a: u8, b: u8, rest: Seq<u8>, other: Seq<u8>)
    ensures
        a != b ==> key_less(head + (seq![a] + rest), head + (seq![b] + other)) == (a < b),
        key_less(head, head + (seq![a] + rest)),
    decreases head.len(),
{
    let x = head + (seq![a] + rest);
    let y = head + (seq![b] + other);
    if head.len() == 0 {
        assert(x =~= seq![a] + rest);
        assert(y =~= seq![b] + other);
    } else {
        let tail = head.drop_first();
        first_difference_decides(tail, a, b, rest, other);
        assert(x.drop_first() =~= tail + (seq![a] + rest));
        assert(y.drop_first() =~= tail + (seq![b] + other));
    }
}

} // verus!
