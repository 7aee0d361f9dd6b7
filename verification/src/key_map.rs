//! A map from keys to values that keeps the order of insertion.
use std::collections::HashMap;

use vstd::prelude::*;
use vstd::utf8::encode_utf8;

use crate::names::{CacheName, StorePath, StorePathHash};
use crate::text::{bytes_eq, text_eq};

verus! {

/// Keys that are the same exactly if their views are.
pub trait Key: View {
    /// A number that depends on the view alone, by which keys are found faster.
    spec fn digest_of(view: Self::V) -> u64;

    /// The number for this key.
    fn digest(&self) -> (r: u64)
        ensures
            r == Self::digest_of(self@),
    ;

    /// Whether two keys are the same.
    fn same(&self, other: &Self) -> (r: bool)
        ensures
            r == (self@ == other@),
    ;
}

/// The digest of a byte string: each byte is added to 31 times what comes before, without regard to
/// overflow.
pub open spec fn bytes_digest(bytes: Seq<u8>) -> u64
    decreases bytes.len(),
{
    if bytes.len() == 0 {
        0
    } else {
        bytes_digest(bytes.drop_last()).wrapping_mul(31).wrapping_add(bytes.last() as u64)
    }
}

fn digest_bytes(bytes: &[u8]) -> (r: u64)
    ensures
        r == bytes_digest(bytes@),
{
    let mut digest: u64 = 0;
    let mut i: usize = 0;
    while i < bytes.len()
        invariant
            i <= bytes.len(),
            digest == bytes_digest(bytes@.take(i as int)),
        decreases bytes.len() - i,
    {
        proof {
            assert(bytes@.take(i + 1).drop_last() =~= bytes@.take(i as int));
        }
        digest = digest.wrapping_mul(31).wrapping_add(bytes[i] as u64);
        i = i + 1;
    }
    proof {
        assert(bytes@.take(bytes@.len() as int) =~= bytes@);
    }
    digest
}

impl Key for String {
    open spec fn digest_of(view: Seq<char>) -> u64 {
        bytes_digest(encode_utf8(view))
    }

    fn digest(&self) -> (r: u64) {
        digest_bytes(self.as_str().as_bytes())
    }

    fn same(&self, other: &Self) -> (r: bool) {
        text_eq(self.as_str(), other.as_str())
    }
}

impl<'a> Key for &'a str {
    open spec fn digest_of(view: Seq<char>) -> u64 {
        bytes_digest(encode_utf8(view))
    }

    fn digest(&self) -> (r: u64) {
        digest_bytes(self.as_bytes())
    }

    fn same(&self, other: &Self) -> (r: bool) {
        text_eq(self, other)
    }
}

impl Key for CacheName {
    open spec fn digest_of(view: Seq<char>) -> u64 {
        bytes_digest(encode_utf8(view))
    }

    fn digest(&self) -> (r: u64) {
        digest_bytes(self.as_str().as_bytes())
    }

    fn same(&self, other: &Self) -> (r: bool) {
        text_eq(self.as_str(), other.as_str())
    }
}

impl Key for StorePathHash {
    open spec fn digest_of(view: Seq<char>) -> u64 {
        bytes_digest(encode_utf8(view))
    }

    fn digest(&self) -> (r: u64) {
        digest_bytes(self.as_str().as_bytes())
    }

    fn same(&self, other: &Self) -> (r: bool) {
        text_eq(self.as_str(), other.as_str())
    }
}

impl Key for StorePath {
    open spec fn digest_of(view: (Seq<u8>, Seq<char>)) -> u64 {
        bytes_digest(view.0)
    }

    fn digest(&self) -> (r: u64) {
        digest_bytes(self.base_name.as_slice())
    }

    fn same(&self, other: &Self) -> (r: bool) {
        bytes_eq(self.base_name.as_slice(), other.base_name.as_slice()) && self.hash.same(
            &other.hash,
        )
    }
}

/// A map from `K` to `V` in which no key occurs twice.
#[verifier::reject_recursive_types(K)]
#[derive(Debug)]
pub struct KeyMap<K: Key, V> {
    table: Table<K, V>,
}

/// Entries, and for each digest the positions of the entries whose keys have it.
#[verifier::reject_recursive_types(K)]
#[derive(Debug)]
struct Table<K: Key, V> {
    entries: Vec<(K, V)>,
    index: HashMap<u64, Vec<usize>>,
}

/// No two entries have the same key.
pub open spec fn distinct_keys<K: Key, V>(entries: Seq<(K, V)>) -> bool {
    forall|i: int, j: int|
        0 <= i < j < entries.len() ==> #[trigger] entries[i].0@ != #[trigger] entries[j].0@
}

/// The map that a list of entries stands for: a later entry takes the place of an earlier one with
/// the same key.
pub open spec fn map_of<K: Key, V>(entries: Seq<(K, V)>) -> Map<K::V, V>
    decreases entries.len(),
{
    if entries.len() == 0 {
        Map::empty()
    } else {
        map_of(entries.drop_last()).insert(entries.last().0@, entries.last().1)
    }
}

/// What the map of a list of entries holds, and how much.
pub proof fn lemma_map_of<K: Key, V>(entries: Seq<(K, V)>)
    ensures
        forall|k: K::V| #[trigger]
            map_of(entries).contains_key(k) <==> exists|i: int|
                0 <= i < entries.len() && #[trigger] entries[i].0@ == k,
        distinct_keys(entries) ==> forall|i: int|
            0 <= i < entries.len() ==> map_of(entries)[#[trigger] entries[i].0@] == entries[i].1,
        map_of(entries).dom().finite(),
        distinct_keys(entries) ==> map_of(entries).dom().len() == entries.len(),
    decreases entries.len(),
{
    if entries.len() > 0 {
        let init = entries.drop_last();
        let last = entries.last();
        lemma_map_of(init);
        assert forall|k: K::V| #[trigger]
            map_of(entries).contains_key(k) <==> exists|i: int|
                0 <= i < entries.len() && #[trigger] entries[i].0@ == k by {
            if map_of(init).contains_key(k) {
                let i = choose|i: int| 0 <= i < init.len() && #[trigger] init[i].0@ == k;
                assert(entries[i].0@ == k);
            }
            if exists|i: int| 0 <= i < entries.len() && #[trigger] entries[i].0@ == k {
                let i = choose|i: int| 0 <= i < entries.len() && #[trigger] entries[i].0@ == k;
                if i < init.len() {
                    assert(init[i].0@ == k);
                }
            }
            assert(entries[entries.len() - 1].0@ == last.0@);
        }
        if distinct_keys(entries) {
            assert(distinct_keys(init)) by {
                assert forall|i: int, j: int| 0 <= i < j < init.len() implies #[trigger] init[i].0@
                    != #[trigger] init[j].0@ by {
                    assert(entries[i].0@ != entries[j].0@);
                }
            }
            assert forall|i: int| 0 <= i < entries.len() implies map_of(
                entries,
            )[#[trigger] entries[i].0@] == entries[i].1 by {
                if i < init.len() {
                    assert(init[i].0@ == entries[i].0@);
                    assert(entries[i].0@ != entries[entries.len() - 1].0@);
                }
            }
            assert(!map_of(init).contains_key(last.0@)) by {
                if map_of(init).contains_key(last.0@) {
                    let i = choose|i: int|
                        0 <= i < init.len() && #[trigger] init[i].0@ == last.0@;
                    assert(entries[i].0@ != entries[entries.len() - 1].0@);
                }
            }
            assert(map_of(entries).dom() =~= map_of(init).dom().insert(last.0@));
        }
        assert(map_of(entries).dom() =~= map_of(init).dom().insert(last.0@));
    }
}

/// Every entry is found through the index, which points at nothing but entries.
spec fn indexed<K: Key, V>(entries: Seq<(K, V)>, index: Map<u64, Vec<usize>>) -> bool {
    &&& forall|i: int|
        0 <= i < entries.len() ==> {
            let d = K::digest_of(#[trigger] entries[i].0@);
            index.contains_key(d) && index[d]@.contains(i as usize)
        }
    &&& forall|d: u64, p: int|
        index.contains_key(d) && 0 <= p < index[d]@.len() ==> #[trigger] index[d]@[p]
            < entries.len()
}

impl<K: Key, V> Table<K, V> {
    spec fn well_formed(self) -> bool {
        &&& distinct_keys(self.entries@)
        &&& self.entries@.len() <= usize::MAX
        &&& indexed(self.entries@, self.index@)
    }

    fn empty() -> (r: Table<K, V>)
        ensures
            r.well_formed(),
            r.entries@ == Seq::<(K, V)>::empty(),
    {
        Table { entries: Vec::new(), index: HashMap::new() }
    }

    /// Lets the index point at one more entry.
    fn add_to_index(index: &mut HashMap<u64, Vec<usize>>, digest: u64, position: usize)
        ensures
            final(index)@.contains_key(digest),
            final(index)@[digest]@ == (if old(index)@.contains_key(digest) {
                old(index)@[digest]@.push(position)
            } else {
                seq![position]
            }),
            forall|d: u64|
                d != digest ==> #[trigger] final(index)@.contains_key(d) == old(
                    index,
                )@.contains_key(d),
            forall|d: u64|
                d != digest && #[trigger] final(index)@.contains_key(d) ==> final(index)@[d] == old(
                    index,
                )@[d],
    {
        let mut positions: Vec<usize> = match index.remove(&digest) {
            Some(positions) => positions,
            None => Vec::new(),
        };
        positions.push(position);
        index.insert(digest, positions);
    }

    /// An index of `entries`.
    fn build(entries: Vec<(K, V)>) -> (r: Table<K, V>)
        requires
            distinct_keys(entries@),
        ensures
            r.well_formed(),
            r.entries@ == entries@,
    {
        let mut index: HashMap<u64, Vec<usize>> = HashMap::new();
        let mut i: usize = 0;
        proof {
            assert(entries@.take(0) =~= Seq::empty());
        }
        while i < entries.len()
            invariant
                i <= entries.len(),
                indexed(entries@.take(i as int), index@),
            decreases entries.len() - i,
        {
            let digest: u64 = entries[i].0.digest();
            let ghost before = index@;
            Self::add_to_index(&mut index, digest, i);
            proof {
                lemma_indexed(entries@.take(i as int), entries@[i as int], before, index@);
                assert(entries@.take(i as int).push(entries@[i as int]) =~= entries@.take(i + 1));
            }
            i = i + 1;
        }
        proof {
            assert(entries@.take(entries@.len() as int) =~= entries@);
        }
        Table { entries, index }
    }

    fn position(&self, key: &K) -> (r: Option<usize>)
        requires
            self.well_formed(),
        ensures
            match r {
                Some(i) => i < self.entries@.len() && self.entries@[i as int].0@ == key@,
                None => forall|j: int|
                    0 <= j < self.entries@.len() ==> #[trigger] self.entries@[j].0@ != key@,
            },
    {
        let digest: u64 = key.digest();
        match self.index.get(&digest) {
            Some(positions) => {
                let mut p: usize = 0;
                while p < positions.len()
                    invariant
                        self.well_formed(),
                        self.index@.contains_key(digest),
                        *positions == self.index@[digest],
                        p <= positions.len(),
                        forall|q: int|
                            0 <= q < p ==> self.entries@[(#[trigger] positions@[q]) as int].0@
                                != key@,
                    decreases positions.len() - p,
                {
                    let i: usize = positions[p];
                    proof {
                        assert(self.index@[digest]@[p as int] < self.entries@.len());
                    }
                    if self.entries[i].0.same(key) {
                        return Some(i);
                    }
                    p = p + 1;
                }
                proof {
                    assert forall|j: int|
                        0 <= j < self.entries@.len() implies #[trigger] self.entries@[j].0@
                        != key@ by {
                        if self.entries@[j].0@ == key@ {
                            assert(self.index@[digest]@.contains(j as usize));
                            let q = choose|q: int|
                                0 <= q < positions@.len() && positions@[q] == j as usize;
                            assert(self.entries@[positions@[q] as int].0@ != key@);
                        }
                    }
                }
                None
            },
            None => {
                proof {
                    assert forall|j: int|
                        0 <= j < self.entries@.len() implies #[trigger] self.entries@[j].0@
                        != key@ by {
                        assert(self.index@.contains_key(K::digest_of(self.entries@[j].0@)));
                    }
                }
                None
            },
        }
    }

    fn insert(&mut self, key: K, value: V)
        requires
            old(self).well_formed(),
        ensures
            final(self).well_formed(),
            map_of(final(self).entries@) == map_of(old(self).entries@).insert(key@, value),
    {
        let ghost before = self.entries@;
        let ghost index_before = self.index@;
        match self.position(&key) {
            Some(i) => {
                self.entries.set(i, (key, value));
                proof {
                    let after = self.entries@;
                    assert forall|j: int| 0 <= j < after.len() implies #[trigger] after[j].0@
                        == before[j].0@ by {}
                    assert forall|j: int| 0 <= j < after.len() implies {
                        let d = K::digest_of(#[trigger] after[j].0@);
                        self.index@.contains_key(d) && self.index@[d]@.contains(j as usize)
                    } by {
                        assert(after[j].0@ == before[j].0@);
                        assert(self.index@.contains_key(K::digest_of(before[j].0@)));
                    }
                }
            },
            None => {
                let digest: u64 = key.digest();
                let ghost entry = (key, value);
                self.entries.push((key, value));
                let position: usize = self.entries.len() - 1;
                Self::add_to_index(&mut self.index, digest, position);
                proof {
                    lemma_indexed(before, entry, index_before, self.index@);
                }
            },
        }
        proof {
            lemma_inserted(before, self.entries@, key, value);
        }
    }

    fn remove(&mut self, key: &K)
        requires
            old(self).well_formed(),
        ensures
            final(self).well_formed(),
            map_of(final(self).entries@) == map_of(old(self).entries@).remove(key@),
    {
        let ghost before = self.entries@;
        match self.position(key) {
            Some(i) => {
                let mut entries: Vec<(K, V)> = Vec::new();
                std::mem::swap(&mut entries, &mut self.entries);
                entries.remove(i);
                proof {
                    lemma_removed(before, entries@, i as int);
                }
                *self = Self::build(entries);
            },
            None => {
                proof {
                    lemma_map_of(before);
                    assert(map_of(before).remove(key@) =~= map_of(before));
                }
            },
        }
    }
}

proof fn lemma_indexed<K: Key, V>(
    entries: Seq<(K, V)>,
    entry: (K, V),
    before: Map<u64, Vec<usize>>,
    after: Map<u64, Vec<usize>>,
)
    requires
        indexed(entries, before),
        entries.len() < usize::MAX,
        ({
            let digest = K::digest_of(entry.0@);
            let position = entries.len() as usize;
            &&& after.contains_key(digest)
            &&& after[digest]@ == (if before.contains_key(digest) {
                before[digest]@.push(position)
            } else {
                seq![position]
            })
            &&& forall|d: u64|
                d != digest ==> #[trigger] after.contains_key(d) == before.contains_key(d)
            &&& forall|d: u64|
                d != digest && #[trigger] after.contains_key(d) ==> after[d] == before[d]
        }),
    ensures
        indexed(entries.push(entry), after),
{
    let all = entries.push(entry);
    let digest = K::digest_of(entry.0@);
    let position = entries.len() as usize;
    assert forall|i: int| 0 <= i < all.len() implies {
        let d = K::digest_of(#[trigger] all[i].0@);
        after.contains_key(d) && after[d]@.contains(i as usize)
    } by {
        let d = K::digest_of(all[i].0@);
        if i < entries.len() {
            assert(entries[i].0@ == all[i].0@);
            assert(before.contains_key(d) && before[d]@.contains(i as usize)) by {
                assert(K::digest_of(entries[i].0@) == d);
            }
            let q = choose|q: int| 0 <= q < before[d]@.len() && before[d]@[q] == i as usize;
            if d != digest {
                assert(after.contains_key(d) == before.contains_key(d));
            }
            assert(after[d]@[q] == i as usize);
        } else {
            assert(after[digest]@[after[digest]@.len() - 1] == position);
        }
    }
    assert forall|d: u64, p: int|
        after.contains_key(d) && 0 <= p < after[d]@.len() implies #[trigger] after[d]@[p]
        < all.len() by {
        if d != digest {
            assert(before.contains_key(d));
            assert(before[d]@[p] < entries.len());
        } else if before.contains_key(digest) && p < before[digest]@.len() {
            assert(before[digest]@[p] < entries.len());
        }
    }
}

proof fn lemma_inserted<K: Key, V>(before: Seq<(K, V)>, after: Seq<(K, V)>, key: K, value: V)
    requires
        distinct_keys(before),
        ({
            ||| exists|i: int|
                0 <= i < before.len() && before[i].0@ == key@ && after == #[trigger] before.update(
                    i,
                    (key, value),
                )
            ||| {
                &&& after == before.push((key, value))
                &&& forall|j: int| 0 <= j < before.len() ==> #[trigger] before[j].0@ != key@
            }
        }),
    ensures
        distinct_keys(after),
        map_of(after) == map_of(before).insert(key@, value),
{
    lemma_map_of(before);
    assert forall|i: int, j: int| 0 <= i < j < after.len() implies #[trigger] after[i].0@
        != #[trigger] after[j].0@ by {
        if i < before.len() && j < before.len() {
            assert(before[i].0@ != before[j].0@);
        }
    }
    lemma_map_of(after);
    assert forall|k: K::V| #[trigger]
        map_of(after).contains_key(k) == map_of(before).insert(key@, value).contains_key(k) by {
        if map_of(after).contains_key(k) {
            let i = choose|i: int| 0 <= i < after.len() && #[trigger] after[i].0@ == k;
            if i < before.len() && k != key@ {
                assert(before[i].0@ == k);
            }
        }
        if map_of(before).contains_key(k) {
            let i = choose|i: int| 0 <= i < before.len() && #[trigger] before[i].0@ == k;
            assert(after[i].0@ == k);
        }
        assert(exists|i: int| 0 <= i < after.len() && #[trigger] after[i].0@ == key@) by {
            if after.len() > before.len() {
                assert(after[before.len() as int].0@ == key@);
            } else {
                let i = choose|i: int|
                    0 <= i < before.len() && before[i].0@ == key@ && after
                        == #[trigger] before.update(i, (key, value));
                assert(after[i].0@ == key@);
            }
        }
    }
    assert forall|k: K::V| #[trigger] map_of(after).contains_key(k) implies map_of(after)[k]
        == map_of(before).insert(key@, value)[k] by {
        let i = choose|i: int| 0 <= i < after.len() && #[trigger] after[i].0@ == k;
        if k != key@ {
            assert(before[i].0@ == k);
        } else if after.len() > before.len() {
            if i < before.len() {
                assert(before[i].0@ != key@);
            }
        } else {
            let u = choose|u: int|
                0 <= u < before.len() && before[u].0@ == key@ && after == #[trigger] before.update(
                    u,
                    (key, value),
                );
            if u < i {
                assert(before[u].0@ != before[i].0@);
            } else if i < u {
                assert(before[i].0@ != before[u].0@);
            }
        }
    }
    assert(map_of(after) =~= map_of(before).insert(key@, value));
}

proof fn lemma_removed<K: Key, V>(before: Seq<(K, V)>, after: Seq<(K, V)>, i: int)
    requires
        distinct_keys(before),
        0 <= i < before.len(),
        after == before.remove(i),
    ensures
        distinct_keys(after),
        map_of(after) == map_of(before).remove(before[i].0@),
{
    let key = before[i].0@;
    lemma_map_of(before);
    assert forall|a: int, b: int| 0 <= a < b < after.len() implies #[trigger] after[a].0@
        != #[trigger] after[b].0@ by {
        let a2 = if a < i { a } else { a + 1 };
        let b2 = if b < i { b } else { b + 1 };
        assert(before[a2].0@ != before[b2].0@);
    }
    lemma_map_of(after);
    assert forall|k: K::V| #[trigger]
        map_of(after).contains_key(k) == map_of(before).remove(key).contains_key(k) by {
        if map_of(after).contains_key(k) {
            let a = choose|a: int| 0 <= a < after.len() && #[trigger] after[a].0@ == k;
            let a2 = if a < i { a } else { a + 1 };
            assert(before[a2].0@ == k);
            if a2 < i {
                assert(before[a2].0@ != before[i].0@);
            } else {
                assert(before[i].0@ != before[a2].0@);
            }
        }
        if map_of(before).remove(key).contains_key(k) {
            let a = choose|a: int| 0 <= a < before.len() && #[trigger] before[a].0@ == k;
            let a2 = if a < i { a } else { a - 1 };
            assert(after[a2].0@ == k);
        }
    }
    assert forall|k: K::V| #[trigger] map_of(after).contains_key(k) implies map_of(after)[k]
        == map_of(before)[k] by {
        let a = choose|a: int| 0 <= a < after.len() && #[trigger] after[a].0@ == k;
        let a2 = if a < i { a } else { a + 1 };
        assert(before[a2].0@ == k);
    }
    assert(map_of(after) =~= map_of(before).remove(key));
}

impl<K: Key, V> View for KeyMap<K, V> {
    type V = Map<K::V, V>;

    closed spec fn view(&self) -> Map<K::V, V> {
        map_of(self.table.entries@)
    }
}

impl<K: Key, V> KeyMap<K, V> {
    #[verifier::type_invariant]
    spec fn well_formed(self) -> bool {
        self.table.well_formed()
    }

    /// The entries in order.
    pub closed spec fn pairs(&self) -> Seq<(K, V)> {
        self.table.entries@
    }

    /// The empty map.
    pub fn new() -> (r: KeyMap<K, V>)
        ensures
            r@ == Map::<K::V, V>::empty(),
            r.pairs() == Seq::<(K, V)>::empty(),
    {
        KeyMap { table: Table::empty() }
    }

    /// The number of keys.
    pub fn len(&self) -> (r: usize)
        ensures
            self@.dom().finite(),
            r == self@.dom().len(),
            r == self.pairs().len(),
            self@ == map_of(self.pairs()),
            distinct_keys(self.pairs()),
    {
        proof {
            use_type_invariant(self);
            lemma_map_of(self.table.entries@);
        }
        self.table.entries.len()
    }

    /// The entry at position `i`.
    pub fn entry(&self, i: usize) -> (r: &(K, V))
        requires
            i < self.pairs().len(),
        ensures
            *r == self.pairs()[i as int],
            self@.contains_key(r.0@),
            self@[r.0@] == r.1,
    {
        proof {
            use_type_invariant(self);
            lemma_map_of(self.table.entries@);
            assert(self.table.entries@[i as int].0@ == self.table.entries@[i as int].0@);
        }
        &self.table.entries[i]
    }

    /// The value of `key`, if there is one.
    pub fn get(&self, key: &K) -> (r: Option<&V>)
        ensures
            match r {
                Some(v) => self@.contains_key(key@) && *v == self@[key@],
                None => !self@.contains_key(key@),
            },
    {
        proof {
            use_type_invariant(self);
            lemma_map_of(self.table.entries@);
        }
        match self.table.position(key) {
            Some(i) => Some(&self.table.entries[i].1),
            None => None,
        }
    }

    /// Whether `key` has a value.
    pub fn contains_key(&self, key: &K) -> (r: bool)
        ensures
            r == self@.contains_key(key@),
    {
        self.get(key).is_some()
    }

    /// Gives `key` the value `value`.
    pub fn insert(&mut self, key: K, value: V)
        ensures
            final(self)@ == old(self)@.insert(key@, value),
    {
        proof {
            use_type_invariant(&*self);
        }
        let mut table: Table<K, V> = Table::empty();
        std::mem::swap(&mut table, &mut self.table);
        table.insert(key, value);
        self.table = table;
    }

    /// Removes `key`, if it is there.
    pub fn remove(&mut self, key: &K)
        ensures
            final(self)@ == old(self)@.remove(key@),
    {
        proof {
            use_type_invariant(&*self);
        }
        let mut table: Table<K, V> = Table::empty();
        std::mem::swap(&mut table, &mut self.table);
        table.remove(key);
        self.table = table;
    }

    /// The map that `entries` stand for: a later entry takes the place of an earlier one with the
    /// same key.
    pub fn from_entries(entries: Vec<(K, V)>) -> (r: KeyMap<K, V>)
        ensures
            r@ == map_of(entries@),
    {
        let ghost all = entries@;
        let mut map: KeyMap<K, V> = KeyMap::new();
        for entry in it: entries
            invariant
                it.seq() == all,
                map@ == map_of(all.take(it.index())),
        {
            proof {
                assert(all.take(it.index() + 1).drop_last() =~= all.take(it.index()));
            }
            map.insert(entry.0, entry.1);
        }
        proof {
            assert(all.take(all.len() as int) =~= all);
        }
        map
    }

    /// The entries, each key once.
    pub fn into_entries(self) -> (r: Vec<(K, V)>)
        ensures
            map_of(r@) == self@,
            distinct_keys(r@),
    {
        proof {
            use_type_invariant(&self);
        }
        self.table.entries
    }

    /// Removes every key.
    pub fn clear(&mut self)
        ensures
            final(self)@ == Map::<K::V, V>::empty(),
    {
        self.table = Table::empty();
    }

    /// Keeps the entries that `keep` is true of.
    pub fn retain<F: Fn(&K, &V) -> bool>(self, keep: F) -> (r: KeyMap<K, V>)
        requires
            forall|k: &K, v: &V| keep.requires((k, v)),
        ensures
            forall|k: K::V| #[trigger] r@.contains_key(k) ==> self@.contains_key(k) && r@[k] == self@[k],
            forall|k: K::V| #[trigger]
                self@.contains_key(k) ==> exists|key: K|
                    #![trigger key@]
                    key@ == k && keep.ensures((&key, &self@[k]), r@.contains_key(k)),
    {
        proof {
            use_type_invariant(&self);
            lemma_map_of(self.table.entries@);
        }
        let ghost before = self.table.entries@;
        let mut kept: Vec<(K, V)> = Vec::new();
        let ghost mut origin: Seq<int> = Seq::empty();
        for entry in it: self.table.entries
            invariant
                it.seq() == before,
                distinct_keys(before),
                forall|k: &K, v: &V| keep.requires((k, v)),
                origin.len() == kept@.len(),
                forall|a: int|
                    0 <= a < kept@.len() ==> 0 <= #[trigger] origin[a] < it.index() && kept@[a]
                        == before[origin[a]],
                forall|a: int, b: int|
                    0 <= a < b < origin.len() ==> #[trigger] origin[a] < #[trigger] origin[b],
                forall|i: int|
                    0 <= i < it.index() ==> keep.ensures(
                        (&(#[trigger] before[i]).0, &before[i].1),
                        origin.contains(i),
                    ),
        {
            let ghost i = it.index();
            let ghost origin_before = origin;
            let flag = keep(&entry.0, &entry.1);
            if flag {
                kept.push(entry);
                proof {
                    origin = origin.push(i);
                }
            }
            proof {
                assert forall|j: int| 0 <= j < i + 1 implies keep.ensures(
                    (&(#[trigger] before[j]).0, &before[j].1),
                    origin.contains(j),
                ) by {
                    if j < i {
                        assert(origin.contains(j) == origin_before.contains(j)) by {
                            if origin_before.contains(j) {
                                let a = choose|a: int|
                                    0 <= a < origin_before.len() && origin_before[a] == j;
                                assert(origin[a] == j);
                            }
                        }
                    } else {
                        if flag {
                            assert(origin[origin.len() - 1] == i);
                        }
                    }
                }
            }
        }
        proof {
            assert forall|a: int, b: int| 0 <= a < b < kept@.len() implies #[trigger] kept@[a].0@
                != #[trigger] kept@[b].0@ by {
                assert(origin[a] < origin[b]);
                assert(before[origin[a]].0@ != before[origin[b]].0@);
            }
            lemma_map_of(kept@);
            assert forall|k: K::V| #[trigger] map_of(kept@).contains_key(k) implies map_of(
                before,
            ).contains_key(k) && map_of(kept@)[k] == map_of(before)[k] by {
                let a = choose|a: int| 0 <= a < kept@.len() && #[trigger] kept@[a].0@ == k;
                assert(before[origin[a]].0@ == k);
            }
            assert forall|k: K::V| #[trigger] map_of(before).contains_key(k) implies exists|key: K|
                #![trigger key@]
                key@ == k && keep.ensures(
                    (&key, &map_of(before)[k]),
                    map_of(kept@).contains_key(k),
                ) by {
                let i = choose|i: int| 0 <= i < before.len() && #[trigger] before[i].0@ == k;
                assert(map_of(kept@).contains_key(k) == origin.contains(i)) by {
                    if origin.contains(i) {
                        let a = choose|a: int| 0 <= a < origin.len() && origin[a] == i;
                        assert(kept@[a].0@ == k);
                    }
                    if map_of(kept@).contains_key(k) {
                        let a = choose|a: int| 0 <= a < kept@.len() && #[trigger] kept@[a].0@ == k;
                        assert(before[origin[a]].0@ == k);
                        if origin[a] < i {
                            assert(before[origin[a]].0@ != before[i].0@);
                        } else if i < origin[a] {
                            assert(before[i].0@ != before[origin[a]].0@);
                        }
                    }
                }
                let key = before[i].0;
                assert(key@ == k);
            }
        }
        KeyMap { table: Table::build(kept) }
    }
}

/// The key `k` is in `list`.
pub open spec fn is_listed<K: Key>(list: Seq<K>, k: K::V) -> bool {
    exists|i: int| 0 <= i < list.len() && #[trigger] list[i]@ == k
}

/// The set of the keys in `list`.
pub fn key_set<K: Key>(list: Vec<K>) -> (r: KeyMap<K, ()>)
    ensures
        forall|k: K::V| #[trigger] r@.contains_key(k) == is_listed(list@, k),
{
    let ghost all = list@;
    let mut set: KeyMap<K, ()> = KeyMap::new();
    for key in it: list
        invariant
            it.seq() == all,
            forall|k: K::V| #[trigger] set@.contains_key(k) == is_listed(all.take(it.index()), k),
    {
        let ghost i = it.index();
        let ghost view = key@;
        let ghost before = set@;
        set.insert(key, ());
        proof {
            let done = all.take(i);
            let next = all.take(i + 1);
            assert forall|k: K::V| #[trigger] set@.contains_key(k) == is_listed(next, k) by {
                assert(next[i]@ == view);
                if is_listed(done, k) {
                    let j = choose|j: int| 0 <= j < done.len() && #[trigger] done[j]@ == k;
                    assert(next[j]@ == k);
                }
                if is_listed(next, k) && k != view {
                    let j = choose|j: int| 0 <= j < next.len() && #[trigger] next[j]@ == k;
                    assert(done[j]@ == k);
                }
                assert(before.contains_key(k) == is_listed(done, k));
            }
        }
    }
    proof {
        assert(all.take(all.len() as int) =~= all);
    }
    set
}

/// Of several entries with the same key, the last one counts, and no key comes from elsewhere.
pub proof fn law_last_entry_of_a_key_counts<K: Key, V>(
    entries: Vec<(K, V)>,
    r: KeyMap<K, V>,
    i: int,
    key: K::V,
)
    requires
        call_ensures(KeyMap::<K, V>::from_entries, (entries,), r),
    ensures
        0 <= i < entries@.len() && (forall|k: int|
            i < k < entries@.len() ==> (#[trigger] entries@[k]).0@ != entries@[i].0@)
            ==> r@.contains_key(entries@[i].0@) && r@[entries@[i].0@] == entries@[i].1,
        r@.contains_key(key) ==> exists|k: int|
            0 <= k < entries@.len() && (#[trigger] entries@[k]).0@ == key,
{
    lemma_map_of(entries@);
    if 0 <= i < entries@.len() && forall|k: int|
        i < k < entries@.len() ==> (#[trigger] entries@[k]).0@ != entries@[i].0@ {
        lemma_last_entry(entries@, i);
    }
    if r@.contains_key(key) {
        let k = choose|k: int| 0 <= k < entries@.len() && #[trigger] entries@[k].0@ == key;
        assert(entries@[k].0@ == key);
    }
}

/// The last entry with a key is the one that counts.
pub proof fn lemma_last_entry<K: Key, V>(entries: Seq<(K, V)>, i: int)
    requires
        0 <= i < entries.len(),
        forall|k: int| i < k < entries.len() ==> (#[trigger] entries[k]).0@ != entries[i].0@,
    ensures
        map_of(entries).contains_key(entries[i].0@),
        map_of(entries)[entries[i].0@] == entries[i].1,
    decreases entries.len(),
{
    if i < entries.len() - 1 {
        let init = entries.drop_last();
        assert forall|k: int| i < k < init.len() implies (#[trigger] init[k]).0@ != init[i].0@ by {
            assert(entries[k].0@ != entries[i].0@);
        }
        lemma_last_entry(init, i);
        assert(entries[entries.len() - 1].0@ != entries[i].0@);
    }
}

/// The set of the keys in a list holds each of them, and nothing else.
pub proof fn law_set_holds_the_listed_keys<K: Key>(list: Vec<K>, r: KeyMap<K, ()>, k: K::V)
    requires
        call_ensures(key_set::<K>, (list,), r),
    ensures
        r@.contains_key(k) <==> exists|i: int| 0 <= i < list@.len() && (#[trigger] list@[i])@ == k,
{
    if r@.contains_key(k) {
        assert(is_listed(list@, k));
        let i = choose|i: int| 0 <= i < list@.len() && #[trigger] list@[i]@ == k;
        assert(list@[i]@ == k);
    }
    if exists|i: int| 0 <= i < list@.len() && (#[trigger] list@[i])@ == k {
        let i = choose|i: int| 0 <= i < list@.len() && (#[trigger] list@[i])@ == k;
        assert(list@[i]@ == k);
        assert(is_listed(list@, k));
    }
}

/// What was inserted under a key is found under it, in place of what was there; what was removed is not
/// found. Either way other keys stay as they are, while clearing leaves none.
pub proof fn law_operations_touch_their_key_alone<K: Key, V>(
    inserted: &mut KeyMap<K, V>,
    removed: &mut KeyMap<K, V>,
    cleared: &mut KeyMap<K, V>,
    owned: K,
    key: &K,
    value: V,
    other: K::V,
)
    requires
        call_ensures(KeyMap::<K, V>::insert, (inserted, owned, value), ()),
        owned@ == key@,
        call_ensures(KeyMap::<K, V>::remove, (removed, key), ()),
        call_ensures(KeyMap::<K, V>::clear, (cleared,), ()),
    ensures
        final(inserted)@.contains_key(key@) && final(inserted)@[key@] == value,
        !final(removed)@.contains_key(key@),
        other != key@ ==> {
            &&& final(inserted)@.contains_key(other) <==> old(inserted)@.contains_key(other)
            &&& final(inserted)@.contains_key(other) ==> final(inserted)@[other] == old(
                inserted,
            )@[other]
            &&& final(removed)@.contains_key(other) <==> old(removed)@.contains_key(other)
            &&& final(removed)@.contains_key(other) ==> final(removed)@[other] == old(
                removed,
            )@[other]
        },
        !final(cleared)@.contains_key(other),
{
}

/// The entries of a map are all there is in it, each key once.
pub proof fn law_entries_are_those_of_the_map<K: Key, V>(
    map: KeyMap<K, V>,
    entries: Vec<(K, V)>,
    i: int,
    j: int,
    key: K::V,
)
    requires
        call_ensures(KeyMap::<K, V>::into_entries, (map,), entries),
    ensures
        0 <= i < entries@.len() ==> map@.contains_key(entries@[i].0@) && map@[entries@[i].0@]
            == entries@[i].1,
        0 <= i < j < entries@.len() ==> entries@[i].0@ != entries@[j].0@,
        map@.contains_key(key) ==> exists|k: int|
            0 <= k < entries@.len() && (#[trigger] entries@[k]).0@ == key,
{
    lemma_map_of(entries@);
    if 0 <= i < entries@.len() {
        lemma_last_entry(entries@, i);
    }
    if map@.contains_key(key) {
        let k = choose|k: int| 0 <= k < entries@.len() && #[trigger] entries@[k].0@ == key;
        assert(entries@[k].0@ == key);
    }
}

} // verus!
