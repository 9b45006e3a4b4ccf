//! The mapping of the format: entries ordered by their keys, each key once.
//!
//! A mapping travels as its entries in ascending order of the keys. Where an
//! entry is put under a key that the mapping already has, the new value takes
//! the place of the old one.
use vstd::prelude::*;
use vstd::utf8::encode_utf8;

verus! {

/// A type whose values can be keys of a mapping: they are strictly ordered.
/// Two keys of which neither comes before the other are one key to a mapping.
pub trait TarsKey: Sized {
    /// Whether `self` comes before `other`.
    open spec fn key_lt(&self, other: &Self) -> bool {
        arbitrary()
    }

    /// Whether `self` comes before `other`.
    fn key_less(&self, other: &Self) -> (b: bool)
        ensures
            b == self.key_lt(other),
    ;
}

/// Whether the bytes `a` come before the bytes `b`, as words in a dictionary
/// do: at the first place where they differ `a` has the smaller byte, or `a`
/// ends there and `b` goes on.
pub open spec fn bytes_lt(a: Seq<u8>, b: Seq<u8>) -> bool
    decreases a.len(),
{
    if b.len() == 0 {
        false
    } else if a.len() == 0 {
        true
    } else if a[0] != b[0] {
        a[0] < b[0]
    } else {
        bytes_lt(a.drop_first(), b.drop_first())
    }
}

/// Whether the bytes of `a` come before the bytes of `b`.
fn bytes_less(a: &[u8], b: &[u8]) -> (r: bool)
    ensures
        r == bytes_lt(a@, b@),
{
    let mut i: usize = 0;
    proof {
        assert(a@.skip(0) =~= a@);
        assert(b@.skip(0) =~= b@);
    }
    while i < a.len() && i < b.len()
        invariant
            i <= a.len(),
            i <= b.len(),
            bytes_lt(a@, b@) == bytes_lt(a@.skip(i as int), b@.skip(i as int)),
        decreases a.len() - i,
    {
        proof {
            assert(a@.skip(i as int)[0] == a@[i as int]);
            assert(b@.skip(i as int)[0] == b@[i as int]);
            assert(a@.skip(i as int).drop_first() =~= a@.skip(i + 1));
            assert(b@.skip(i as int).drop_first() =~= b@.skip(i + 1));
        }
        if a[i] != b[i] {
            return a[i] < b[i];
        }
        i = i + 1;
    }
    i < b.len()
}

impl TarsKey for i8 {
    open spec fn key_lt(&self, other: &Self) -> bool {
        *self < *other
    }

    fn key_less(&self, other: &Self) -> (b: bool) {
        *self < *other
    }
}

impl TarsKey for i16 {
    open spec fn key_lt(&self, other: &Self) -> bool {
        *self < *other
    }

    fn key_less(&self, other: &Self) -> (b: bool) {
        *self < *other
    }
}

impl TarsKey for i32 {
    open spec fn key_lt(&self, other: &Self) -> bool {
        *self < *other
    }

    fn key_less(&self, other: &Self) -> (b: bool) {
        *self < *other
    }
}

impl TarsKey for i64 {
    open spec fn key_lt(&self, other: &Self) -> bool {
        *self < *other
    }

    fn key_less(&self, other: &Self) -> (b: bool) {
        *self < *other
    }
}

impl TarsKey for u8 {
    open spec fn key_lt(&self, other: &Self) -> bool {
        *self < *other
    }

    fn key_less(&self, other: &Self) -> (b: bool) {
        *self < *other
    }
}

impl TarsKey for u16 {
    open spec fn key_lt(&self, other: &Self) -> bool {
        *self < *other
    }

    fn key_less(&self, other: &Self) -> (b: bool) {
        *self < *other
    }
}

impl TarsKey for u32 {
    open spec fn key_lt(&self, other: &Self) -> bool {
        *self < *other
    }

    fn key_less(&self, other: &Self) -> (b: bool) {
        *self < *other
    }
}

impl TarsKey for u64 {
    open spec fn key_lt(&self, other: &Self) -> bool {
        *self < *other
    }

    fn key_less(&self, other: &Self) -> (b: bool) {
        *self < *other
    }
}

/// `false` comes before `true`.
impl TarsKey for bool {
    open spec fn key_lt(&self, other: &Self) -> bool {
        !*self && *other
    }

    fn key_less(&self, other: &Self) -> (b: bool) {
        !*self && *other
    }
}

/// Strings are ordered by their bytes of UTF-8.
impl TarsKey for String {
    open spec fn key_lt(&self, other: &Self) -> bool {
        bytes_lt(encode_utf8(self@), encode_utf8(other@))
    }

    fn key_less(&self, other: &Self) -> (b: bool) {
        bytes_less(self.as_str().as_bytes(), other.as_str().as_bytes())
    }
}

/// Whether the keys of the entries ascend strictly from each entry to the
/// next.
pub open spec fn ascending<K: TarsKey, V>(entries: Seq<(K, V)>) -> bool {
    forall|i: int| 0 <= i < entries.len() - 1 ==> (#[trigger] entries[i]).0.key_lt(&entries[i + 1].0)
}

/// The entries of a mapping after `value` was put under `key`: where an entry
/// has a key of which neither comes before the other, that entry keeps its key
/// and takes the value; else a new entry stands before the first entry whose
/// key comes after `key`, or at the end.
pub open spec fn map_put<K: TarsKey, V>(entries: Seq<(K, V)>, key: K, value: V) -> Seq<(K, V)>
    decreases entries.len(),
{
    if entries.len() == 0 {
        seq![(key, value)]
    } else if entries[0].0.key_lt(&key) {
        seq![entries[0]] + map_put(entries.drop_first(), key, value)
    } else if key.key_lt(&entries[0].0) {
        seq![(key, value)] + entries
    } else {
        seq![(entries[0].0, value)] + entries.drop_first()
    }
}

/// The value that the entries hold under `key`: that of the first entry with
/// a key of which neither comes before the other.
pub open spec fn map_get<K: TarsKey, V>(entries: Seq<(K, V)>, key: K) -> Option<V>
    decreases entries.len(),
{
    if entries.len() == 0 {
        None
    } else if !entries[0].0.key_lt(&key) && !key.key_lt(&entries[0].0) {
        Some(entries[0].1)
    } else {
        map_get(entries.drop_first(), key)
    }
}

/// The entries of the mapping `into` after each of `entries` was put into it,
/// first to last: of two entries with one key the later one stays.
pub open spec fn put_all<K: TarsKey, V>(entries: Seq<(K, V)>, into: Seq<(K, V)>) -> Seq<(K, V)>
    decreases entries.len(),
{
    if entries.len() == 0 {
        into
    } else {
        put_all(entries.drop_first(), map_put(into, entries[0].0, entries[0].1))
    }
}

/// Behind entries whose keys all come before `key`, putting under `key` is
/// putting into the rest.
pub proof fn lemma_put_behind<K: TarsKey, V>(entries: Seq<(K, V)>, at: int, key: K, value: V)
    requires
        0 <= at <= entries.len(),
        forall|j: int| 0 <= j < at ==> (#[trigger] entries[j]).0.key_lt(&key),
    ensures
        map_put(entries, key, value) == entries.take(at) + map_put(entries.skip(at), key, value),
    decreases at,
{
    if at == 0 {
        assert(entries.skip(0) =~= entries);
        assert(entries.take(0) + map_put(entries, key, value) =~= map_put(entries, key, value));
    } else {
        let rest = entries.drop_first();
        assert(entries[0].0.key_lt(&key));
        assert forall|j: int| 0 <= j < at - 1 implies (#[trigger] rest[j]).0.key_lt(&key) by {
            assert(rest[j] == entries[j + 1]);
        }
        lemma_put_behind(rest, at - 1, key, value);
        assert(rest.skip(at - 1) =~= entries.skip(at));
        assert(seq![entries[0]] + (rest.take(at - 1) + map_put(entries.skip(at), key, value))
            =~= entries.take(at) + map_put(entries.skip(at), key, value));
    }
}

/// Putting under a key that comes after every key of the entries adds the
/// entry at the end.
pub proof fn lemma_put_last<K: TarsKey, V>(entries: Seq<(K, V)>, key: K, value: V)
    requires
        forall|j: int| 0 <= j < entries.len() ==> (#[trigger] entries[j]).0.key_lt(&key),
    ensures
        map_put(entries, key, value) == entries.push((key, value)),
{
    lemma_put_behind(entries, entries.len() as int, key, value);
    assert(entries.take(entries.len() as int) =~= entries);
    assert(entries.skip(entries.len() as int) =~= Seq::<(K, V)>::empty());
    assert(entries + seq![(key, value)] =~= entries.push((key, value)));
}

/// Whether the order of the keys of type `K` is transitive.
pub open spec fn key_transitive<K: TarsKey>() -> bool {
    forall|a: K, b: K, c: K| #[trigger] a.key_lt(&b) && #[trigger] b.key_lt(&c) ==> a.key_lt(&c)
}

/// Where the order of the keys is transitive, ascending entries ascend from
/// each entry to every later one: no key stands twice.
pub proof fn law_ascending_all<K: TarsKey, V>(entries: Seq<(K, V)>, i: int, j: int)
    requires
        key_transitive::<K>(),
        ascending(entries),
        0 <= i < j < entries.len(),
    ensures
        entries[i].0.key_lt(&entries[j].0),
    decreases j - i,
{
    if j > i + 1 {
        law_ascending_all(entries, i, j - 1);
        assert(entries[j - 1].0.key_lt(&entries[j - 1 + 1].0));
    } else {
        assert(entries[i].0.key_lt(&entries[i + 1].0));
    }
}

/// The order of bytes is transitive.
pub proof fn lemma_bytes_lt_transitive(a: Seq<u8>, b: Seq<u8>, c: Seq<u8>)
    requires
        bytes_lt(a, b),
        bytes_lt(b, c),
    ensures
        bytes_lt(a, c),
    decreases a.len(),
{
    if a.len() > 0 && a[0] == b[0] && b[0] == c[0] {
        lemma_bytes_lt_transitive(a.drop_first(), b.drop_first(), c.drop_first());
    }
}

/// No bytes come before themselves.
pub proof fn lemma_bytes_lt_irreflexive(a: Seq<u8>)
    ensures
        !bytes_lt(a, a),
    decreases a.len(),
{
    if a.len() > 0 {
        lemma_bytes_lt_irreflexive(a.drop_first());
    }
}

/// Bytes of which neither come before the other are the same bytes.
pub proof fn lemma_bytes_lt_total(a: Seq<u8>, b: Seq<u8>)
    requires
        !bytes_lt(a, b),
        !bytes_lt(b, a),
    ensures
        a == b,
    decreases a.len(),
{
    if a.len() > 0 && b.len() > 0 {
        lemma_bytes_lt_total(a.drop_first(), b.drop_first());
        assert(a =~= seq![a[0]] + a.drop_first());
        assert(b =~= seq![b[0]] + b.drop_first());
    } else {
        assert(a =~= b);
    }
}

/// Whether the keys of type `K` are strictly ordered: no key comes before
/// itself, the order is transitive, and two keys of which neither comes before
/// the other stand at the same place in the order.
pub open spec fn key_strict<K: TarsKey>() -> bool {
    &&& forall|a: K| !(#[trigger] a.key_lt(&a))
    &&& key_transitive::<K>()
    &&& forall|a: K, b: K, c: K|
        #![trigger a.key_lt(&b), a.key_lt(&c)]
        !a.key_lt(&b) && !b.key_lt(&a) ==> a.key_lt(&c) == b.key_lt(&c)
    &&& forall|a: K, b: K, c: K|
        #![trigger a.key_lt(&b), c.key_lt(&a)]
        !a.key_lt(&b) && !b.key_lt(&a) ==> c.key_lt(&a) == c.key_lt(&b)
}

/// The signed 8-bit numbers are strictly ordered.
pub proof fn law_i8_key_strict()
    ensures
        key_strict::<i8>(),
{
}

/// The signed 16-bit numbers are strictly ordered.
pub proof fn law_i16_key_strict()
    ensures
        key_strict::<i16>(),
{
}

/// The signed 32-bit numbers are strictly ordered.
pub proof fn law_i32_key_strict()
    ensures
        key_strict::<i32>(),
{
}

/// The signed 64-bit numbers are strictly ordered.
pub proof fn law_i64_key_strict()
    ensures
        key_strict::<i64>(),
{
}

/// The unsigned 8-bit numbers are strictly ordered.
pub proof fn law_u8_key_strict()
    ensures
        key_strict::<u8>(),
{
}

/// The unsigned 16-bit numbers are strictly ordered.
pub proof fn law_u16_key_strict()
    ensures
        key_strict::<u16>(),
{
}

/// The unsigned 32-bit numbers are strictly ordered.
pub proof fn law_u32_key_strict()
    ensures
        key_strict::<u32>(),
{
}

/// The unsigned 64-bit numbers are strictly ordered.
pub proof fn law_u64_key_strict()
    ensures
        key_strict::<u64>(),
{
}

/// The booleans are strictly ordered.
pub proof fn law_bool_key_strict()
    ensures
        key_strict::<bool>(),
{
}

/// The strings are strictly ordered.
pub proof fn law_string_key_strict()
    ensures
        key_strict::<String>(),
{
    assert forall|a: String| !(#[trigger] a.key_lt(&a)) by {
        lemma_bytes_lt_irreflexive(encode_utf8(a@));
    }
    assert forall|a: String, b: String, c: String| #[trigger]
        a.key_lt(&b) && #[trigger] b.key_lt(&c) implies a.key_lt(&c) by {
        lemma_bytes_lt_transitive(encode_utf8(a@), encode_utf8(b@), encode_utf8(c@));
    }
    assert forall|a: String, b: String, c: String|
        #![trigger a.key_lt(&b), a.key_lt(&c)]
        !a.key_lt(&b) && !b.key_lt(&a) implies a.key_lt(&c) == b.key_lt(&c) by {
        lemma_bytes_lt_total(encode_utf8(a@), encode_utf8(b@));
    }
    assert forall|a: String, b: String, c: String|
        #![trigger a.key_lt(&b), c.key_lt(&a)]
        !a.key_lt(&b) && !b.key_lt(&a) implies c.key_lt(&a) == c.key_lt(&b) by {
        lemma_bytes_lt_total(encode_utf8(a@), encode_utf8(b@));
    }
}

/// What was put under a key is what the mapping holds under that key.
pub proof fn law_put_then_get<K: TarsKey, V>(entries: Seq<(K, V)>, key: K, value: V)
    requires
        key_strict::<K>(),
    ensures
        map_get(map_put(entries, key, value), key) == Some(value),
    decreases entries.len(),
{
    assert(!key.key_lt(&key));
    if entries.len() == 0 {
    } else if entries[0].0.key_lt(&key) {
        let put = seq![entries[0]] + map_put(entries.drop_first(), key, value);
        law_put_then_get(entries.drop_first(), key, value);
        assert(put[0] == entries[0]);
        assert(put.drop_first() =~= map_put(entries.drop_first(), key, value));
    } else if key.key_lt(&entries[0].0) {
        let put = seq![(key, value)] + entries;
        assert(put[0] == (key, value));
    } else {
        let put = seq![(entries[0].0, value)] + entries.drop_first();
        assert(put[0] == (entries[0].0, value));
    }
}

/// Putting under a key leaves what the mapping holds under every other key.
pub proof fn law_put_keeps_others<K: TarsKey, V>(entries: Seq<(K, V)>, key: K, value: V, other: K)
    requires
        key_strict::<K>(),
        other.key_lt(&key) || key.key_lt(&other),
    ensures
        map_get(map_put(entries, key, value), other) == map_get(entries, other),
    decreases entries.len(),
{
    assert(!key.key_lt(&key));
    assert(!other.key_lt(&other));
    assert(key.key_lt(&other) ==> !other.key_lt(&key)) by {
        if key.key_lt(&other) && other.key_lt(&key) {
            assert(key.key_lt(&key));
        }
    }
    if entries.len() == 0 {
        let put = seq![(key, value)];
        assert(put[0] == (key, value));
        assert(put.drop_first() =~= entries);
    } else if entries[0].0.key_lt(&key) {
        let put = seq![entries[0]] + map_put(entries.drop_first(), key, value);
        law_put_keeps_others(entries.drop_first(), key, value, other);
        assert(put[0] == entries[0]);
        assert(put.drop_first() =~= map_put(entries.drop_first(), key, value));
    } else if key.key_lt(&entries[0].0) {
        let put = seq![(key, value)] + entries;
        assert(put[0] == (key, value));
        assert(put.drop_first() =~= entries);
    } else {
        let first = entries[0].0;
        let put = seq![(first, value)] + entries.drop_first();
        assert(put[0] == (first, value));
        assert(put.drop_first() =~= entries.drop_first());
        // `other` is not the key of the first entry: that key stands where `key` stands
        assert(first.key_lt(&other) == key.key_lt(&other));
        assert(other.key_lt(&first) == other.key_lt(&key));
    }
}

/// A mapping from `K` to `V`: its entries in strictly ascending order of the
/// keys.
#[derive(Clone, Debug, PartialEq, Eq, PartialOrd, Ord)]
pub struct TarsMap<K, V> {
    entries: Vec<(K, V)>,
}

impl<K, V> View for TarsMap<K, V> {
    type V = Seq<(K, V)>;

    /// The entries, in the order in which they travel.
    closed spec fn view(&self) -> Seq<(K, V)> {
        self.entries@
    }
}

impl<K, V> TarsMap<K, V> {
    /// The number of entries.
    pub fn len(&self) -> (n: usize)
        ensures
            n == self@.len(),
    {
        self.entries.len()
    }

    /// The entries, in ascending order of the keys.
    pub fn as_entries(&self) -> (entries: &Vec<(K, V)>)
        ensures
            entries@ == self@,
    {
        &self.entries
    }

    /// Hands out the entries, in ascending order of the keys.
    pub fn into_entries(self) -> (entries: Vec<(K, V)>)
        ensures
            entries@ == self@,
    {
        self.entries
    }
}

impl<K: TarsKey, V> TarsMap<K, V> {
    /// The entries ascend strictly by their keys: no key stands twice.
    pub open spec fn wf(&self) -> bool {
        ascending(self@)
    }

    /// A mapping without entries.
    pub fn new() -> (map: Self)
        ensures
            map.wf(),
            map@ == Seq::<(K, V)>::empty(),
    {
        TarsMap { entries: Vec::new() }
    }

    /// The mapping of the entries, put into it first to last: of two entries
    /// with one key the later one stays.
    pub fn from_entries(entries: Vec<(K, V)>) -> (map: Self)
        ensures
            map.wf(),
            map@ == put_all(entries@, Seq::<(K, V)>::empty()),
    {
        let ghost all = entries@;
        let mut entries = entries;
        let mut map = Self::new();
        while entries.len() > 0
            invariant
                map.wf(),
                put_all(entries@, map@) == put_all(all, Seq::<(K, V)>::empty()),
            decreases entries@.len(),
        {
            let ghost rest = entries@;
            let entry = entries.remove(0);
            proof {
                assert(entries@ =~= rest.drop_first());
            }
            map.insert(entry.0, entry.1);
        }
        map
    }

    /// The place of the first entry whose key does not come before `key`.
    fn lower_bound(&self, key: &K) -> (at: usize)
        ensures
            at <= self@.len(),
            forall|j: int| 0 <= j < at ==> (#[trigger] self@[j]).0.key_lt(key),
            at < self@.len() ==> !self@[at as int].0.key_lt(key),
    {
        let mut at: usize = 0;
        while at < self.entries.len()
            invariant
                at <= self.entries@.len(),
                forall|j: int| 0 <= j < at ==> (#[trigger] self.entries@[j]).0.key_lt(key),
            decreases self.entries@.len() - at,
        {
            if !self.entries[at].0.key_less(key) {
                return at;
            }
            at = at + 1;
        }
        at
    }

    /// Puts `value` under `key`. Where the mapping has the key, the value
    /// takes the place of the one that was there.
    pub fn insert(&mut self, key: K, value: V)
        requires
            old(self).wf(),
        ensures
            final(self).wf(),
            final(self)@ == map_put(old(self)@, key, value),
    {
        let ghost before = self@;
        let at = self.lower_bound(&key);
        proof {
            lemma_put_behind(before, at as int, key, value);
        }
        if at < self.entries.len() && !key.key_less(&self.entries[at].0) {
            let had = self.entries.remove(at);
            self.entries.insert(at, (had.0, value));
            proof {
                let rest = before.skip(at as int);
                assert(rest[0] == before[at as int]);
                assert(self@ =~= before.take(at as int) + (seq![(had.0, value)]
                    + rest.drop_first()));
                assert forall|i: int| 0 <= i < self@.len() - 1 implies (#[trigger] self@[i]).0.key_lt(
                    &self@[i + 1].0,
                ) by {
                    assert(before[i].0.key_lt(&before[i + 1].0));
                }
            }
        } else {
            self.entries.insert(at, (key, value));
            proof {
                let rest = before.skip(at as int);
                if at < before.len() {
                    assert(rest[0] == before[at as int]);
                    assert(self@ =~= before.take(at as int) + (seq![(key, value)] + rest));
                } else {
                    assert(rest.len() == 0);
                    assert(self@ =~= before.take(at as int) + seq![(key, value)]);
                }
                assert forall|i: int| 0 <= i < self@.len() - 1 implies (#[trigger] self@[i]).0.key_lt(
                    &self@[i + 1].0,
                ) by {
                    if i + 1 < at {
                        assert(before[i].0.key_lt(&before[i + 1].0));
                    } else if i + 1 == at {
                        assert(before[i].0.key_lt(&key));
                    } else if i == at {
                    } else {
                        assert(before[i - 1].0.key_lt(&before[i].0));
                    }
                }
            }
        }
    }

    /// The value under `key`, where the mapping has the key.
    pub fn get(&self, key: &K) -> (r: Option<&V>)
        ensures
            match r {
                Some(value) => map_get(self@, *key) == Some(*value),
                None => map_get(self@, *key) is None,
            },
    {
        let mut i: usize = 0;
        proof {
            assert(self@.skip(0) =~= self@);
        }
        while i < self.entries.len()
            invariant
                i <= self.entries@.len(),
                map_get(self@, *key) == map_get(self@.skip(i as int), *key),
            decreases self.entries@.len() - i,
        {
            proof {
                assert(self@.skip(i as int)[0] == self@[i as int]);
                assert(self@.skip(i as int).drop_first() =~= self@.skip(i + 1));
            }
            if !self.entries[i].0.key_less(key) && !key.key_less(&self.entries[i].0) {
                return Some(&self.entries[i].1);
            }
            i = i + 1;
        }
        None
    }
}

} // verus!
