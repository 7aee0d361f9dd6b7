//! A small, generic in-process cache with lazy TTL-based expiry.
use std::time::Instant;

use vstd::prelude::*;

use crate::key_map::{Key, KeyMap};

verus! {

/// `std::time::Instant`, a reading of a clock that never goes back.
#[verifier::external_type_specification]
#[verifier::external_body]
pub struct ExInstant(std::time::Instant);

/// `Instant::now`: the current reading of the clock, of which nothing is claimed.
#[verifier::external_body]
pub(crate) fn clock_now() -> (r: Instant) {
    Instant::now()
}

/// `Instant::elapsed`: the nanoseconds since `start`, of which nothing is claimed.
#[verifier::external_body]
pub(crate) fn nanos_since(start: &Instant) -> (r: u128) {
    start.elapsed().as_nanos()
}

/// A cache mapping `K` to `V`, where entries expire some time after insertion.
///
/// There is no active eviction thread: expired entries are only removed lazily, the next time they
/// are looked up. Times are in nanoseconds since the cache was made.
#[verifier::reject_recursive_types(K)]
#[derive(Debug)]
pub struct TtlCache<K: Key, V> {
    epoch: Instant,
    map: KeyMap<K, (u128, V)>,
}

impl<K: Key, V> View for TtlCache<K, V> {
    type V = Map<K::V, (u128, V)>;

    /// For each key, when it was inserted, and its value.
    closed spec fn view(&self) -> Map<K::V, (u128, V)> {
        self.map@
    }
}

/// What was inserted at `inserted` is fresh at `now`: less than `ttl` has passed.
pub open spec fn is_fresh(inserted: u128, ttl: u128, now: u128) -> bool {
    (if now > inserted {
        now - inserted
    } else {
        0
    }) < ttl
}

/// The cache holds a fresh value for `key`.
pub open spec fn hits<KV, V>(cache: Map<KV, (u128, V)>, key: KV, ttl: u128, now: u128) -> bool {
    cache.contains_key(key) && is_fresh(cache[key].0, ttl, now)
}

/// What a lookup leaves of a cache: a stale entry for the key is evicted.
pub open spec fn after_lookup<KV, V>(
    cache: Map<KV, (u128, V)>,
    key: KV,
    ttl: u128,
    now: u128,
) -> Map<KV, (u128, V)> {
    if cache.contains_key(key) && !is_fresh(cache[key].0, ttl, now) {
        cache.remove(key)
    } else {
        cache
    }
}

impl<K: Key, V> TtlCache<K, V> {
    /// Creates an empty cache.
    pub fn new() -> (r: TtlCache<K, V>)
        ensures
            r@ == Map::<K::V, (u128, V)>::empty(),
    {
        TtlCache { epoch: clock_now(), map: KeyMap::new() }
    }

    /// When the cache was made.
    pub closed spec fn made_at(&self) -> Instant {
        self.epoch
    }

    /// `now` is what the clock can show, in nanoseconds since the cache was made.
    pub closed spec fn is_reading(&self, now: u128) -> bool {
        call_ensures(nanos_since, (&self.epoch,), now)
    }

    /// The times of `other` count from when this cache was made, too.
    pub open spec fn same_clock(&self, other: &TtlCache<K, V>) -> bool {
        self.made_at() == other.made_at()
    }

    /// The current time, in nanoseconds since the cache was made.
    pub fn now(&self) -> (r: u128)
        ensures
            self.is_reading(r),
    {
        nanos_since(&self.epoch)
    }

    /// Whether there is an entry for `key`, fresh or not.
    pub fn contains_key(&self, key: &K) -> (r: bool)
        ensures
            r == self@.contains_key(key@),
    {
        self.map.contains_key(key)
    }

    /// Returns a clone of the cached value for `key`, if present and inserted less than `ttl` ago.
    ///
    /// If the entry is present but stale, it's lazily evicted.
    pub fn get(&mut self, key: &K, ttl: u128) -> (r: Option<V>) where V: Clone
        ensures
            exists|now: u128|
                #![trigger after_lookup(old(self)@, key@, ttl, now)]
                {
                    &&& old(self).is_reading(now)
                    &&& r is Some <==> hits(old(self)@, key@, ttl, now)
                    &&& r matches Some(value) ==> cloned(old(self)@[key@].1, value)
                    &&& final(self)@ == after_lookup(old(self)@, key@, ttl, now)
                },
            r is Some ==> old(self)@.contains_key(key@),
            final(self).same_clock(old(self)),
    {
        let now: u128 = self.now();
        self.get_at(key, ttl, now)
    }

    /// Same as `get`, but with an explicit "current time".
    pub fn get_at(&mut self, key: &K, ttl: u128, now: u128) -> (r: Option<V>) where V: Clone
        ensures
            r is Some <==> hits(old(self)@, key@, ttl, now),
            r matches Some(value) ==> cloned(old(self)@[key@].1, value),
            final(self)@ == after_lookup(old(self)@, key@, ttl, now),
            final(self).same_clock(old(self)),
    {
        match self.map.get(key) {
            Some((inserted_at, value)) => {
                let age: u128 = if now > *inserted_at {
                    now - *inserted_at
                } else {
                    0
                };
                if age < ttl {
                    return Some(value.clone());
                }
            },
            None => {
                return None;
            },
        }
        self.map.remove(key);
        None
    }

    /// Inserts or overwrites `key` with `value`, timestamped with the current time (refreshing the
    /// TTL window).
    pub fn insert(&mut self, key: K, value: V)
        ensures
            exists|now: u128|
                old(self).is_reading(now) && final(self)@ == #[trigger] old(self)@.insert(
                    key@,
                    (now, value),
                ),
            final(self).same_clock(old(self)),
    {
        let now: u128 = self.now();
        self.insert_at(key, value, now);
        proof {
            assert(self@ == old(self)@.insert(key@, (now, value)));
        }
    }

    /// Same as `insert`, but with an explicit "current time".
    pub fn insert_at(&mut self, key: K, value: V, now: u128)
        ensures
            final(self)@ == old(self)@.insert(key@, (now, value)),
            final(self).same_clock(old(self)),
    {
        self.map.insert(key, (now, value));
    }

    /// Unconditionally removes `key`, if present.
    pub fn invalidate(&mut self, key: &K)
        ensures
            final(self)@ == old(self)@.remove(key@),
            final(self).same_clock(old(self)),
    {
        self.map.remove(key);
    }
}

/// A value is found as long as less than `ttl` has passed since it was last inserted, and not any
/// longer.
pub proof fn law_entry_lives_for_its_ttl<KV, V>(
    cache: Map<KV, (u128, V)>,
    key: KV,
    value: V,
    inserted: u128,
    ttl: u128,
    now: u128,
)
    requires
        inserted <= now,
    ensures
        hits(cache.insert(key, (inserted, value)), key, ttl, now) <==> now - inserted < ttl,
{
}

/// After a key was invalidated, and after a lookup found it stale, no lookup finds it until it is
/// inserted again.
pub proof fn law_removed_entry_stays_away<KV, V>(
    cache: Map<KV, (u128, V)>,
    key: KV,
    ttl: u128,
    now: u128,
    other_ttl: u128,
    later: u128,
)
    ensures
        !hits(cache.remove(key), key, other_ttl, later),
        !hits(cache, key, ttl, now) ==> !hits(
            after_lookup(cache, key, ttl, now),
            key,
            other_ttl,
            later,
        ),
{
}

/// Looking up or invalidating a key does not touch any other.
pub proof fn law_other_entries_are_untouched<KV, V>(
    cache: Map<KV, (u128, V)>,
    key: KV,
    other: KV,
    ttl: u128,
    now: u128,
)
    requires
        key != other,
    ensures
        hits(after_lookup(cache, key, ttl, now), other, ttl, now) == hits(cache, other, ttl, now),
        hits(cache.remove(key), other, ttl, now) == hits(cache, other, ttl, now),
        hits(cache, other, ttl, now) ==> after_lookup(cache, key, ttl, now)[other] == cache[other],
{
}

/// What was inserted is found exactly while less than `ttl` has passed, and what is found is a clone of
/// it. A clock that shows an earlier time counts as one on which no time has passed. A lookup that
/// finds nothing leaves nothing of the key, one that finds the value leaves everything.
pub proof fn law_insertions_are_found_for_their_ttl<K: Key, V: Clone>(
    cache: &mut TtlCache<K, V>,
    inserted_key: K,
    value: V,
    inserted: u128,
    after: &mut TtlCache<K, V>,
    key: &K,
    ttl: u128,
    now: u128,
    r: Option<V>,
)
    requires
        call_ensures(TtlCache::<K, V>::insert_at, (cache, inserted_key, value, inserted), ()),
        *old(after) == *final(cache),
        call_ensures(TtlCache::<K, V>::get_at, (after, key, ttl, now), r),
        inserted_key@ == key@,
    ensures
        inserted <= now ==> (r is Some <==> now - inserted < ttl),
        now < inserted ==> (r is Some <==> ttl > 0),
        r matches Some(found) ==> cloned(value, found) && final(after)@ == old(after)@,
        r is None ==> !final(after)@.contains_key(key@),
        forall|other: K::V|
            other != key@ ==> (#[trigger] final(after)@.contains_key(other) <==> old(
                cache,
            )@.contains_key(other)) && (final(after)@.contains_key(other) ==> final(after)@[other]
                == old(cache)@[other]),
{
}

/// What is found was inserted, less than `ttl` ago. A lookup takes away nothing but the key that it
/// was for, and that only if it is stale.
pub proof fn law_lookups_find_what_is_there<K: Key, V: Clone>(
    cache: &mut TtlCache<K, V>,
    key: &K,
    ttl: u128,
    now: u128,
    r: Option<V>,
)
    requires
        call_ensures(TtlCache::<K, V>::get_at, (cache, key, ttl, now), r),
    ensures
        !old(cache)@.contains_key(key@) ==> r is None && final(cache)@ == old(cache)@,
        old(cache)@.contains_key(key@) ==> {
            let inserted = old(cache)@[key@].0;
            &&& r is Some <==> now < inserted + ttl && ttl > 0
            &&& r matches Some(found) ==> cloned(old(cache)@[key@].1, found)
            &&& final(cache)@ == (if r is Some {
                old(cache)@
            } else {
                old(cache)@.remove(key@)
            })
        },
{
}

/// The same holds of a lookup by the clock, for the time that the clock shows.
pub proof fn law_lookups_go_by_the_clock<K: Key, V: Clone>(
    cache: &mut TtlCache<K, V>,
    key: &K,
    ttl: u128,
    r: Option<V>,
)
    requires
        call_ensures(TtlCache::<K, V>::get, (cache, key, ttl), r),
    ensures
        exists|now: u128| #[trigger]
            old(cache).is_reading(now) && (r is Some <==> old(cache)@.contains_key(key@) && now
                < old(cache)@[key@].0 + ttl && ttl > 0),
        r matches Some(found) ==> cloned(old(cache)@[key@].1, found) && final(cache)@ == old(cache)@,
        r is None ==> final(cache)@ == old(cache)@.remove(key@),
{
    let now = choose|now: u128|
        #![trigger after_lookup(old(cache)@, key@, ttl, now)]
        {
            &&& old(cache).is_reading(now)
            &&& r is Some <==> hits(old(cache)@, key@, ttl, now)
            &&& r matches Some(value) ==> cloned(old(cache)@[key@].1, value)
            &&& final(cache)@ == after_lookup(old(cache)@, key@, ttl, now)
        };
    assert(old(cache).is_reading(now));
    if r is None {
        assert(final(cache)@ =~= old(cache)@.remove(key@));
    }
}

/// An insertion by the clock puts the value under its key, with the time that the clock shows, and
/// changes nothing else.
pub proof fn law_insertions_go_by_the_clock<K: Key, V>(cache: &mut TtlCache<K, V>, key: K, value: V)
    requires
        call_ensures(TtlCache::<K, V>::insert, (cache, key, value), ()),
    ensures
        final(cache)@.contains_key(key@),
        final(cache)@[key@].1 == value,
        old(cache).is_reading(final(cache)@[key@].0),
        final(cache)@.remove(key@) =~= old(cache)@.remove(key@),
{
}

/// What was invalidated is not there any more, whatever the time; everything else is.
pub proof fn law_invalidated_keys_are_gone<K: Key, V>(cache: &mut TtlCache<K, V>, key: &K)
    requires
        call_ensures(TtlCache::<K, V>::invalidate, (cache, key), ()),
    ensures
        !final(cache)@.contains_key(key@),
        forall|other: K::V|
            other != key@ ==> (#[trigger] final(cache)@.contains_key(other) <==> old(
                cache,
            )@.contains_key(other)) && (final(cache)@.contains_key(other) ==> final(cache)@[other]
                == old(cache)@[other]),
{
}

} // verus!
