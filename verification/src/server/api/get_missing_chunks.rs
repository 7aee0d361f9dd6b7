//! Which chunks a cache lacks.
use vstd::prelude::*;

use crate::hash;
use crate::hash::{hashes, typed_base16, HashIndex};
use crate::key_map::{is_listed, key_set};
use crate::text::texts;

verus! {

/// Each requested hash once.
pub fn requested_hashes(chunk_hashes: &Vec<hash::Hash>) -> (r: Vec<hash::Hash>)
    ensures
        hashes(r@).no_duplicates(),
        forall|h: Seq<u8>| #[trigger] hashes(r@).contains(h) == hashes(chunk_hashes@).contains(h),
{
    let mut seen = HashIndex::new();
    let mut out: Vec<hash::Hash> = Vec::new();
    let mut i: usize = 0;
    while i < chunk_hashes.len()
        invariant
            i <= chunk_hashes.len(),
            hashes(out@).no_duplicates(),
            forall|h: Seq<u8>| #[trigger]
                hashes(out@).contains(h) == hashes(chunk_hashes@.take(i as int)).contains(h),
            forall|h: Seq<u8>| #[trigger] seen@.contains(h) == hashes(out@).contains(h),
        decreases chunk_hashes.len() - i,
    {
        let hash = chunk_hashes[i];
        let ghost before = hashes(out@);
        let ghost done = hashes(chunk_hashes@.take(i as int));
        if seen.insert(hash) {
            out.push(hash);
        }
        proof {
            let after = hashes(out@);
            let next = hashes(chunk_hashes@.take(i + 1));
            assert(next =~= done.push(hash@));
            if !before.contains(hash@) {
                assert(after =~= before.push(hash@));
            }
            assert forall|h: Seq<u8>| #[trigger] after.contains(h) <==> before.contains(h) || h
                == hash@ by {
                if before.contains(h) {
                    let k = choose|k: int| 0 <= k < before.len() && before[k] == h;
                    assert(after[k] == h);
                }
                if !before.contains(hash@) {
                    assert(after[before.len() as int] == hash@);
                }
            }
            assert forall|h: Seq<u8>| #[trigger] next.contains(h) <==> done.contains(h) || h
                == hash@ by {
                if done.contains(h) {
                    let k = choose|k: int| 0 <= k < done.len() && done[k] == h;
                    assert(next[k] == h);
                }
                assert(next[i as int] == hash@);
            }
        }
        i = i + 1;
    }
    proof {
        assert(chunk_hashes@.take(chunk_hashes@.len() as int) =~= chunk_hashes@);
    }
    out
}

/// The on-wire forms of `list`, by which the database finds chunks.
pub fn query_texts(list: &Vec<hash::Hash>) -> (r: Vec<String>)
    ensures
        r@.len() == list@.len(),
        forall|i: int| 0 <= i < r@.len() ==> #[trigger] r@[i]@ == typed_base16(list@[i]@),
{
    let mut out: Vec<String> = Vec::new();
    let mut i: usize = 0;
    while i < list.len()
        invariant
            i <= list.len(),
            out@.len() == i,
            forall|k: int| 0 <= k < i ==> #[trigger] out@[k]@ == typed_base16(list@[k]@),
        decreases list.len() - i,
    {
        out.push(list[i].to_typed_base16());
        i = i + 1;
    }
    out
}

/// The chunks that a cache lacks: those requested that are not among `found`, which holds the on-wire
/// forms of the chunks that the database has. Each is named once.
pub fn missing_chunks(chunk_hashes: &Vec<hash::Hash>, found: Vec<String>) -> (r: Vec<hash::Hash>)
    ensures
        hashes(r@).no_duplicates(),
        forall|h: Seq<u8>| #[trigger]
            hashes(r@).contains(h) <==> hashes(chunk_hashes@).contains(h) && !texts(
                found@,
            ).contains(typed_base16(h)),
{
    let requested = requested_hashes(chunk_hashes);
    let ghost all = found@;
    let found_hashes = key_set(found);
    proof {
        assert forall|t: Seq<char>| #[trigger]
            found_hashes@.contains_key(t) == texts(all).contains(t) by {
            if is_listed(all, t) {
                let k = choose|k: int| 0 <= k < all.len() && #[trigger] all[k]@ == t;
                assert(texts(all)[k] == t);
            }
            if texts(all).contains(t) {
                let k = choose|k: int| 0 <= k < all.len() && texts(all)[k] == t;
                assert(all[k]@ == t);
            }
        }
    }
    let mut out: Vec<hash::Hash> = Vec::new();
    let mut i: usize = 0;
    while i < requested.len()
        invariant
            i <= requested.len(),
            hashes(requested@).no_duplicates(),
            hashes(out@).no_duplicates(),
            forall|t: Seq<char>| #[trigger]
                found_hashes@.contains_key(t) == texts(all).contains(t),
            forall|h: Seq<u8>| #[trigger]
                hashes(out@).contains(h) <==> hashes(requested@.take(i as int)).contains(h)
                    && !texts(all).contains(typed_base16(h)),
        decreases requested.len() - i,
    {
        let hash = requested[i];
        let ghost before = hashes(out@);
        let ghost done = hashes(requested@.take(i as int));
        proof {
            if done.contains(hash@) {
                let k = choose|k: int| 0 <= k < done.len() && done[k] == hash@;
                assert(hashes(requested@)[k] == hashes(requested@)[i as int]);
            }
            assert(!before.contains(hash@));
        }
        if !found_hashes.contains_key(&hash.to_typed_base16()) {
            out.push(hash);
        }
        proof {
            let after = hashes(out@);
            let next = hashes(requested@.take(i + 1));
            assert(next =~= done.push(hash@));
            let added = !texts(all).contains(typed_base16(hash@));
            if added {
                assert(after =~= before.push(hash@));
            }
            assert forall|h: Seq<u8>| #[trigger] after.contains(h) <==> next.contains(h) && !texts(
                all,
            ).contains(typed_base16(h)) by {
                if done.contains(h) {
                    let k = choose|k: int| 0 <= k < done.len() && done[k] == h;
                    assert(next[k] == h);
                }
                assert(next[i as int] == hash@);
                if before.contains(h) {
                    let k = choose|k: int| 0 <= k < before.len() && before[k] == h;
                    assert(after[k] == h);
                }
                if added {
                    assert(after[before.len() as int] == hash@);
                }
            }
        }
        i = i + 1;
    }
    proof {
        assert(requested@.take(requested@.len() as int) =~= requested@);
    }
    out
}

/// A cache lacks a chunk exactly if it was asked about and its on-wire form is not among those that the
/// database found. No chunk is named twice.
pub proof fn law_missing_is_what_was_not_found(
    chunk_hashes: &Vec<hash::Hash>,
    found: Vec<String>,
    r: Vec<hash::Hash>,
    h: Seq<u8>,
)
    requires
        call_ensures(missing_chunks, (chunk_hashes, found), r),
    ensures
        (exists|i: int| 0 <= i < r@.len() && (#[trigger] r@[i])@ == h) <==> {
            &&& exists|j: int| 0 <= j < chunk_hashes@.len() && (#[trigger] chunk_hashes@[j])@ == h
            &&& forall|k: int|
                0 <= k < found@.len() ==> (#[trigger] found@[k])@ != typed_base16(h)
        },
        forall|i: int, j: int|
            0 <= i < j < r@.len() ==> (#[trigger] r@[i])@ != (#[trigger] r@[j])@,
{
    lemma_hash_listed(r@, h);
    lemma_hash_listed(chunk_hashes@, h);
    let t = typed_base16(h);
    if texts(found@).contains(t) {
        let k = choose|k: int| 0 <= k < found@.len() && texts(found@)[k] == t;
        assert(found@[k]@ == t);
    }
    if exists|k: int| 0 <= k < found@.len() && (#[trigger] found@[k])@ == t {
        let k = choose|k: int| 0 <= k < found@.len() && (#[trigger] found@[k])@ == t;
        assert(texts(found@)[k] == t);
    }
    assert forall|i: int, j: int| 0 <= i < j < r@.len() implies (#[trigger] r@[i])@ != (
    #[trigger] r@[j])@ by {
        assert(hashes(r@)[i] == r@[i]@ && hashes(r@)[j] == r@[j]@);
    }
}

proof fn lemma_hash_listed(list: Seq<hash::Hash>, h: Seq<u8>)
    ensures
        hashes(list).contains(h) <==> exists|i: int|
            0 <= i < list.len() && (#[trigger] list[i])@ == h,
{
    if hashes(list).contains(h) {
        let i = choose|i: int| 0 <= i < hashes(list).len() && hashes(list)[i] == h;
        assert(list[i]@ == h);
    }
    if exists|i: int| 0 <= i < list.len() && (#[trigger] list[i])@ == h {
        let i = choose|i: int| 0 <= i < list.len() && (#[trigger] list[i])@ == h;
        assert(hashes(list)[i] == h);
    }
}

/// The database is asked about every chunk that the client asked about, by the on-wire form of its hash,
/// and about none twice.
pub proof fn law_database_is_asked_about_every_chunk(
    chunk_hashes: &Vec<hash::Hash>,
    requested: Vec<hash::Hash>,
    query: Vec<String>,
    hash: &hash::Hash,
    text: String,
)
    requires
        call_ensures(requested_hashes, (chunk_hashes,), requested),
        call_ensures(query_texts, (&requested,), query),
        call_ensures(hash::Hash::to_typed_base16, (hash,), text),
    ensures
        (exists|j: int| 0 <= j < chunk_hashes@.len() && (#[trigger] chunk_hashes@[j])@ == hash@)
            ==> exists|k: int| 0 <= k < query@.len() && (#[trigger] query@[k])@ == text@,
        forall|i: int, j: int|
            0 <= i < j < requested@.len() ==> (#[trigger] requested@[i])@ != (
            #[trigger] requested@[j])@,
        query@.len() == requested@.len(),
        (exists|k: int| 0 <= k < requested@.len() && (#[trigger] requested@[k])@ == hash@)
            ==> exists|j: int| 0 <= j < chunk_hashes@.len() && (#[trigger] chunk_hashes@[j])@ == hash@,
{
    lemma_hash_listed(chunk_hashes@, hash@);
    lemma_hash_listed(requested@, hash@);
    if exists|i: int| 0 <= i < requested@.len() && (#[trigger] requested@[i])@ == hash@ {
        let i = choose|i: int| 0 <= i < requested@.len() && (#[trigger] requested@[i])@ == hash@;
        assert(query@[i]@ == typed_base16(requested@[i]@));
    }
    assert forall|i: int, j: int| 0 <= i < j < requested@.len() implies (#[trigger] requested@[i])@
        != (#[trigger] requested@[j])@ by {
        assert(hashes(requested@)[i] == requested@[i]@ && hashes(requested@)[j] == requested@[j]@);
    }
}

} // verus!
