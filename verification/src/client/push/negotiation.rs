//! Chunk-manifest negotiation and the body of negotiated uploads.
use vstd::prelude::*;

use crate::api::upload_path::{
    build_chunk_manifest, first_occurrence, inline_body, inline_size, inlined_size, is_manifest_of,
    law_manifest_sizes_sum_to_nar_size, ChunkManifestEntry,
};
use crate::hash;
use crate::hash::{hashes, sha256, HashIndex};

verus! {

/// A chunk manifest negotiated with the server, ready to send.
#[derive(Debug)]
pub struct NegotiatedManifest {
    /// The manifest, in NAR stream order.
    pub manifest: Vec<ChunkManifestEntry>,

    /// The total size, in bytes, of the manifest's `inline` entries.
    ///
    /// This is the size of the request body a negotiated upload will actually send, used both for
    /// `Content-Length` and to size the progress bar.
    pub total_inline_bytes: usize,
}

/// Records the next chunk of the hash pass. The chunk's bytes are not kept.
pub fn record_chunk(ordered_chunks: &mut Vec<(hash::Hash, usize)>, chunk: &[u8])
    ensures
        final(ordered_chunks)@.len() == old(ordered_chunks)@.len() + 1,
        final(ordered_chunks)@.drop_last() == old(ordered_chunks)@,
        final(ordered_chunks)@.last().0@ == sha256(chunk@),
        final(ordered_chunks)@.last().1 == chunk@.len(),
{
    let hash = hash::Hash::sha256_from_bytes(chunk);
    ordered_chunks.push((hash, chunk.len()));
    proof {
        assert(ordered_chunks@.drop_last() =~= old(ordered_chunks)@);
    }
}

/// The hashes of `chunks`, in order.
pub open spec fn chunk_hashes(chunks: Seq<(hash::Hash, usize)>) -> Seq<Seq<u8>> {
    chunks.map_values(|c: (hash::Hash, usize)| c.0@)
}

/// The elements of `s` without repeats, in order of first occurrence.
pub open spec fn distinct(s: Seq<Seq<u8>>) -> Seq<Seq<u8>>
    decreases s.len(),
{
    if s.len() == 0 {
        Seq::empty()
    } else if s.drop_last().contains(s.last()) {
        distinct(s.drop_last())
    } else {
        distinct(s.drop_last()).push(s.last())
    }
}

/// The distinct hashes to ask the server about, in order of first occurrence.
pub fn unique_hashes(ordered_chunks: &[(hash::Hash, usize)]) -> (r: Vec<hash::Hash>)
    ensures
        hashes(r@) == distinct(chunk_hashes(ordered_chunks@)),
{
    let mut seen = HashIndex::new();
    let mut unique: Vec<hash::Hash> = Vec::new();
    let mut i: usize = 0;
    while i < ordered_chunks.len()
        invariant
            i <= ordered_chunks.len(),
            hashes(unique@) == distinct(chunk_hashes(ordered_chunks@.take(i as int))),
            forall|h: Seq<u8>| #[trigger]
                seen@.contains(h) == chunk_hashes(ordered_chunks@.take(i as int)).contains(h),
        decreases ordered_chunks.len() - i,
    {
        let hash = ordered_chunks[i].0;
        let ghost before = chunk_hashes(ordered_chunks@.take(i as int));
        let ghost unique_before = unique@;
        if seen.insert(hash) {
            unique.push(hash);
        }
        proof {
            let after = chunk_hashes(ordered_chunks@.take(i + 1));
            assert(after =~= before.push(hash@));
            assert(after.drop_last() =~= before);
            if !before.contains(hash@) {
                assert(hashes(unique@) =~= hashes(unique_before).push(hash@));
            }
            assert forall|h: Seq<u8>| #[trigger] seen@.contains(h) == after.contains(h) by {
                if before.contains(h) {
                    let k = choose|k: int| 0 <= k < before.len() && before[k] == h;
                    assert(after[k] == h);
                }
                assert(after[i as int] == hash@);
            }
        }
        i = i + 1;
    }
    proof {
        assert(ordered_chunks@.take(ordered_chunks@.len() as int) =~= ordered_chunks@);
    }
    unique
}

proof fn lemma_distinct_has_same_elements(s: Seq<Seq<u8>>, h: Seq<u8>)
    ensures
        distinct(s).contains(h) == s.contains(h),
    decreases s.len(),
{
    if s.len() > 0 {
        let init = s.drop_last();
        lemma_distinct_has_same_elements(init, h);
        if init.contains(h) {
            let k = choose|k: int| 0 <= k < init.len() && init[k] == h;
            assert(s[k] == h);
        }
        if s.contains(h) && h != s.last() {
            let k = choose|k: int| 0 <= k < s.len() && s[k] == h;
            assert(init[k] == h);
        }
        assert(s[s.len() - 1] == s.last());
        let d = distinct(init);
        if !init.contains(s.last()) {
            let e = d.push(s.last());
            if d.contains(h) {
                let k = choose|k: int| 0 <= k < d.len() && d[k] == h;
                assert(e[k] == h);
            }
            if e.contains(h) && h != s.last() {
                let k = choose|k: int| 0 <= k < e.len() && e[k] == h;
                assert(d[k] == h);
            }
            assert(e[d.len() as int] == s.last());
        }
    }
}

proof fn lemma_distinct_has_no_repeats(s: Seq<Seq<u8>>)
    ensures
        distinct(s).no_duplicates(),
    decreases s.len(),
{
    if s.len() > 0 {
        lemma_distinct_has_no_repeats(s.drop_last());
        lemma_distinct_has_same_elements(s.drop_last(), s.last());
    }
}

/// The server is asked about every chunk of the NAR, and about none twice.
pub proof fn law_every_chunk_is_asked_about_once(chunks: Seq<(hash::Hash, usize)>)
    ensures
        distinct(chunk_hashes(chunks)).no_duplicates(),
        forall|h: Seq<u8>| #[trigger]
            distinct(chunk_hashes(chunks)).contains(h) == chunk_hashes(chunks).contains(h),
{
    lemma_distinct_has_no_repeats(chunk_hashes(chunks));
    assert forall|h: Seq<u8>| #[trigger]
        distinct(chunk_hashes(chunks)).contains(h) == chunk_hashes(chunks).contains(h) by {
        lemma_distinct_has_same_elements(chunk_hashes(chunks), h);
    }
}

proof fn lemma_inline_size_of_prefix(manifest: Seq<ChunkManifestEntry>, n: int)
    requires
        0 <= n <= manifest.len(),
    ensures
        inline_size(manifest.take(n)) <= inline_size(manifest),
    decreases manifest.len(),
{
    if n == manifest.len() {
        assert(manifest.take(n) =~= manifest);
    } else {
        lemma_inline_size_of_prefix(manifest.drop_last(), n);
        assert(manifest.drop_last().take(n) =~= manifest.take(n));
    }
}

/// Every chunk is missing.
pub open spec fn all_missing(chunks: Seq<(hash::Hash, usize)>, missing: Seq<hash::Hash>) -> bool {
    forall|h: Seq<u8>| #[trigger]
        chunk_hashes(chunks).contains(h) ==> hashes(missing).contains(h)
}

/// Makes a chunk manifest from the NAR's ordered chunks and the server's answer.
///
/// `None` means that negotiating would provide no benefit: the NAR produced no chunks, or every
/// unique chunk is missing server-side, in which case a manifest would end up with everything
/// inline, which is pure overhead compared to a plain full upload.
pub fn negotiate_chunk_manifest(
    ordered_chunks: &[(hash::Hash, usize)],
    missing_chunks: &Vec<hash::Hash>,
) -> (r: Option<NegotiatedManifest>)
    requires
        all_missing(ordered_chunks@, missing_chunks@) || inlined_size(
            ordered_chunks@,
            hashes(missing_chunks@).to_set(),
        ) <= usize::MAX,
    ensures
        r is None <==> all_missing(ordered_chunks@, missing_chunks@),
        r matches Some(n) ==> is_manifest_of(
            n.manifest@,
            ordered_chunks@,
            hashes(missing_chunks@).to_set(),
        ) && n.total_inline_bytes == inline_size(n.manifest@),
{
    let missing = HashIndex::from_list(missing_chunks);
    let mut nothing_found = true;
    let mut i: usize = 0;
    while i < ordered_chunks.len()
        invariant
            i <= ordered_chunks.len(),
            forall|h: Seq<u8>| #[trigger]
                missing@.contains(h) == hashes(missing_chunks@).contains(h),
            nothing_found == forall|j: int|
                0 <= j < i ==> missing@.contains((#[trigger] ordered_chunks@[j]).0@),
        decreases ordered_chunks.len() - i,
    {
        if !missing.contains(&ordered_chunks[i].0) {
            nothing_found = false;
        }
        i = i + 1;
    }
    proof {
        let all = chunk_hashes(ordered_chunks@);
        if nothing_found {
            assert forall|h: Seq<u8>| #[trigger] all.contains(h) implies hashes(
                missing_chunks@,
            ).contains(h) by {
                let k = choose|k: int| 0 <= k < all.len() && all[k] == h;
                assert(missing@.contains(ordered_chunks@[k].0@));
            }
        } else {
            let k = choose|k: int|
                0 <= k < ordered_chunks@.len() && !missing@.contains(
                    (#[trigger] ordered_chunks@[k]).0@,
                );
            assert(all[k] == ordered_chunks@[k].0@);
            assert(all.contains(ordered_chunks@[k].0@));
        }
    }
    if nothing_found {
        return None;
    }
    let manifest = build_chunk_manifest(ordered_chunks, &missing);
    proof {
        assert(missing@ =~= hashes(missing_chunks@).to_set());
        law_manifest_sizes_sum_to_nar_size(manifest@, ordered_chunks@, missing@);
    }
    let mut total_inline_bytes: usize = 0;
    let mut k: usize = 0;
    while k < manifest.len()
        invariant
            k <= manifest.len(),
            total_inline_bytes == inline_size(manifest@.take(k as int)),
            inline_size(manifest@) <= usize::MAX,
        decreases manifest.len() - k,
    {
        proof {
            lemma_inline_size_of_prefix(manifest@, k + 1);
            assert(manifest@.take(k + 1).drop_last() =~= manifest@.take(k as int));
        }
        if manifest[k].inline {
            total_inline_bytes = total_inline_bytes + manifest[k].size;
        }
        k = k + 1;
    }
    proof {
        assert(manifest@.take(manifest@.len() as int) =~= manifest@);
    }
    Some(NegotiatedManifest { manifest, total_inline_bytes })
}

proof fn lemma_inline_size_from_front(manifest: Seq<ChunkManifestEntry>)
    requires
        manifest.len() > 0,
    ensures
        inline_size(manifest) == inline_size(manifest.drop_first()) + if manifest[0].inline {
            manifest[0].size as nat
        } else {
            0
        },
    decreases manifest.len(),
{
    if manifest.len() == 1 {
        assert(manifest.drop_last() =~= Seq::empty());
        assert(manifest.drop_first() =~= Seq::empty());
    } else {
        lemma_inline_size_from_front(manifest.drop_last());
        assert(manifest.drop_last().drop_first() =~= manifest.drop_first().drop_last());
    }
}

/// The body of a negotiated upload is exactly as long as the manifest's inline entries say.
pub proof fn law_inline_body_has_the_announced_length(
    manifest: Seq<ChunkManifestEntry>,
    chunks: Seq<Seq<u8>>,
)
    requires
        manifest.len() == chunks.len(),
        forall|i: int| 0 <= i < manifest.len() ==> (#[trigger] manifest[i]).size == chunks[i].len(),
    ensures
        inline_body(manifest, chunks).len() == inline_size(manifest),
    decreases manifest.len(),
{
    if manifest.len() > 0 {
        assert(manifest[0].size == chunks[0].len());
        lemma_inline_size_from_front(manifest);
        assert forall|i: int| 0 <= i < manifest.len() - 1 implies (
        #[trigger] manifest.drop_first()[i]).size == chunks.drop_first()[i].len() by {
            assert(manifest[i + 1].size == chunks[i + 1].len());
        }
        law_inline_body_has_the_announced_length(manifest.drop_first(), chunks.drop_first());
    }
}

/// One chunk that the server has, at whatever position `i` in the NAR, is enough for a manifest, and
/// there is no manifest without one.
pub proof fn law_one_known_chunk_is_enough_for_a_manifest(
    ordered_chunks: &[(hash::Hash, usize)],
    missing_chunks: &Vec<hash::Hash>,
    r: Option<NegotiatedManifest>,
    i: int,
)
    requires
        call_ensures(negotiate_chunk_manifest, (ordered_chunks, missing_chunks), r),
        0 <= i < ordered_chunks@.len(),
    ensures
        (forall|j: int|
            0 <= j < missing_chunks@.len() ==> (#[trigger] missing_chunks@[j])@
                != ordered_chunks@[i].0@) ==> r is Some,
        r is Some ==> exists|k: int|
            #![trigger ordered_chunks@[k]]
            0 <= k < ordered_chunks@.len() && forall|j: int|
                0 <= j < missing_chunks@.len() ==> (#[trigger] missing_chunks@[j])@
                    != ordered_chunks@[k].0@,
{
    let all = chunk_hashes(ordered_chunks@);
    if r is None {
        let h = ordered_chunks@[i].0@;
        assert(all[i] == h);
        assert(all.contains(h));
        assert(hashes(missing_chunks@).contains(h));
        let j = choose|j: int|
            0 <= j < hashes(missing_chunks@).len() && hashes(missing_chunks@)[j] == h;
        assert(missing_chunks@[j]@ == h);
    } else {
        let h = choose|h: Seq<u8>| #[trigger]
            all.contains(h) && !hashes(missing_chunks@).contains(h);
        let k = choose|k: int| 0 <= k < all.len() && all[k] == h;
        assert(ordered_chunks@[k].0@ == h);
        assert forall|j: int| 0 <= j < missing_chunks@.len() implies (#[trigger] missing_chunks@[j])@
            != h by {
            assert(hashes(missing_chunks@)[j] == missing_chunks@[j]@);
        }
    }
}

/// A manifest names every chunk of the NAR, in order and with its size. A chunk comes inline exactly
/// if the server reported it as missing and no chunk before it is the same, and the announced size is
/// that of the inline chunks.
pub proof fn law_manifest_says_what_is_sent(
    ordered_chunks: &[(hash::Hash, usize)],
    missing_chunks: &Vec<hash::Hash>,
    r: Option<NegotiatedManifest>,
    i: int,
)
    requires
        call_ensures(negotiate_chunk_manifest, (ordered_chunks, missing_chunks), r),
        0 <= i < ordered_chunks@.len(),
    ensures
        r matches Some(n) ==> {
            &&& n.manifest@.len() == ordered_chunks@.len()
            &&& n.manifest@[i].hash@ == ordered_chunks@[i].0@
            &&& n.manifest@[i].size == ordered_chunks@[i].1
            &&& n.manifest@[i].inline <==> {
                &&& exists|j: int|
                    0 <= j < missing_chunks@.len() && (#[trigger] missing_chunks@[j])@
                        == ordered_chunks@[i].0@
                &&& forall|k: int|
                    0 <= k < i ==> (#[trigger] ordered_chunks@[k]).0@ != ordered_chunks@[i].0@
            }
            &&& n.total_inline_bytes == n.manifest@.fold_left(
                0int,
                |sum: int, e: ChunkManifestEntry| sum + if e.inline { e.size as int } else { 0 },
            )
        },
{
    if let Some(n) = r {
        let h = ordered_chunks@[i].0@;
        let missing = hashes(missing_chunks@);
        if missing.contains(h) {
            let j = choose|j: int| 0 <= j < missing.len() && missing[j] == h;
            assert(missing_chunks@[j]@ == h);
        }
        if exists|j: int| 0 <= j < missing_chunks@.len() && (#[trigger] missing_chunks@[j])@ == h {
            let j = choose|j: int|
                0 <= j < missing_chunks@.len() && (#[trigger] missing_chunks@[j])@ == h;
            assert(missing[j] == h);
        }
        assert(n.manifest@[i].inline == (missing.to_set().contains(h) && first_occurrence(
            ordered_chunks@,
            i,
        )));
        lemma_inline_size_is_a_sum(n.manifest@);
    }
}

proof fn lemma_inline_size_is_a_sum(manifest: Seq<ChunkManifestEntry>)
    ensures
        inline_size(manifest) == manifest.fold_left(
            0int,
            |sum: int, e: ChunkManifestEntry| sum + if e.inline { e.size as int } else { 0 },
        ),
    decreases manifest.len(),
{
    if manifest.len() > 0 {
        lemma_inline_size_is_a_sum(manifest.drop_last());
    }
}

/// The server is asked about every chunk of the NAR, whatever its position `i`, about nothing else,
/// and about nothing twice. A hash that first comes up earlier in the NAR is asked about earlier.
pub proof fn law_questions_follow_the_chunks(
    ordered_chunks: &[(hash::Hash, usize)],
    r: Vec<hash::Hash>,
    i: int,
)
    requires
        call_ensures(unique_hashes, (ordered_chunks,), r),
    ensures
        0 <= i < ordered_chunks@.len() ==> exists|j: int|
            0 <= j < r@.len() && (#[trigger] r@[j])@ == ordered_chunks@[i].0@,
        0 <= i < r@.len() ==> exists|k: int|
            0 <= k < ordered_chunks@.len() && (#[trigger] ordered_chunks@[k]).0@ == r@[i]@
                && forall|j: int, l: int|
                i < j < r@.len() && 0 <= l <= k ==> (#[trigger] r@[j])@ != (
                #[trigger] ordered_chunks@[l]).0@,
        forall|j: int, k: int|
            0 <= j < k < r@.len() ==> (#[trigger] r@[j])@ != (#[trigger] r@[k])@,
{
    let all = chunk_hashes(ordered_chunks@);
    let asked = hashes(r@);
    lemma_distinct_has_no_repeats(all);
    if 0 <= i < ordered_chunks@.len() {
        let h = ordered_chunks@[i].0@;
        assert(all[i] == h);
        lemma_distinct_has_same_elements(all, h);
        assert(asked.contains(h));
        let j = choose|j: int| 0 <= j < asked.len() && asked[j] == h;
        assert(r@[j]@ == h);
    }
    if 0 <= i < r@.len() {
        let k = lemma_distinct_keeps_order(all, i);
        assert(ordered_chunks@[k].0@ == all[k]);
        assert(asked[i] == r@[i]@);
        assert forall|j: int, l: int| i < j < r@.len() && 0 <= l <= k implies (#[trigger] r@[j])@
            != (#[trigger] ordered_chunks@[l]).0@ by {
            assert(asked[j] == r@[j]@);
            assert(all[l] == ordered_chunks@[l].0@);
        }
    }
    assert forall|j: int, k: int| 0 <= j < k < r@.len() implies (#[trigger] r@[j])@ != (
    #[trigger] r@[k])@ by {
        assert(asked[j] == r@[j]@ && asked[k] == r@[k]@);
    }
}

proof fn lemma_distinct_keeps_order(s: Seq<Seq<u8>>, i: int) -> (k: int)
    requires
        0 <= i < distinct(s).len(),
    ensures
        0 <= k < s.len(),
        s[k] == distinct(s)[i],
        forall|j: int, l: int|
            i < j < distinct(s).len() && 0 <= l <= k ==> #[trigger] distinct(s)[j]
                != #[trigger] s[l],
    decreases s.len(),
{
    let init = s.drop_last();
    if i == distinct(init).len() {
        s.len() - 1
    } else {
        let k = lemma_distinct_keeps_order(init, i);
        assert forall|j: int, l: int|
            i < j < distinct(s).len() && 0 <= l <= k implies #[trigger] distinct(s)[j]
            != #[trigger] s[l] by {
            assert(init[l] == s[l]);
            if j < distinct(init).len() {
                assert(distinct(init)[j] == distinct(s)[j]);
            } else {
                assert(distinct(s)[j] == s.last());
                assert(init.contains(init[l]));
            }
        }
        k
    }
}

/// A chunk that is recorded comes after those recorded before, with the digest and the length of its
/// data.
pub proof fn law_chunks_are_recorded_in_order(
    ordered_chunks: &mut Vec<(hash::Hash, usize)>,
    chunk: &[u8],
    digest: hash::Hash,
    i: int,
)
    requires
        call_ensures(record_chunk, (ordered_chunks, chunk), ()),
        call_ensures(hash::Hash::sha256_from_bytes, (chunk,), digest),
    ensures
        final(ordered_chunks)@.len() == old(ordered_chunks)@.len() + 1,
        0 <= i < old(ordered_chunks)@.len() ==> final(ordered_chunks)@[i] == old(ordered_chunks)@[i],
        final(ordered_chunks)@.last().0@ == digest@,
        final(ordered_chunks)@.last().1 == chunk@.len(),
{
    if 0 <= i < old(ordered_chunks)@.len() {
        assert(final(ordered_chunks)@.drop_last()[i] == final(ordered_chunks)@[i]);
    }
}

} // verus!
