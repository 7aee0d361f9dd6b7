//! `PUT /_api/v1/upload-path` and the chunk manifests of negotiated uploads.
use vstd::prelude::*;

use crate::hash;
use crate::hash::HashIndex;
use crate::names::{CacheName, StorePathHash};

verus! {

/// Header containing the upload info.
pub const ATTIC_NAR_INFO: &'static str = "X-Attic-Nar-Info";

/// Header containing the size of the upload info at the beginning of the body.
pub const ATTIC_NAR_INFO_PREAMBLE_SIZE: &'static str = "X-Attic-Nar-Info-Preamble-Size";

/// NAR information associated with an upload.
///
/// There are two ways for the client to supply the NAR information:
///
/// 1. At the beginning of the PUT body. The `X-Attic-Nar-Info-Preamble-Size` header must be set to
///    the size of the JSON.
/// 2. Through the `X-Attic-Nar-Info` header.
///
/// The client is advised to use the first method if the serialized JSON is large (>4K).
#[derive(Debug)]
pub struct UploadPathNarInfo {
    /// The name of the binary cache to upload to.
    pub cache: CacheName,

    /// The hash portion of the store path.
    pub store_path_hash: StorePathHash,

    /// The full store path being cached, including the store directory.
    pub store_path: String,

    /// Other store paths this object directly references.
    pub references: Vec<String>,

    /// The system this derivation is built for.
    pub system: Option<String>,

    /// The derivation that produced this object.
    pub deriver: Option<String>,

    /// The signatures of this object.
    pub sigs: Vec<String>,

    /// The CA field of this object.
    pub ca: Option<String>,

    /// The hash of the NAR, which the server always validates.
    pub nar_hash: hash::Hash,

    /// The size of the NAR.
    pub nar_size: usize,

    /// The chunk manifest for a negotiated (dedup-aware) upload.
    ///
    /// When present, this describes the NAR's content-defined chunks in NAR stream order. The
    /// entries' sizes must sum to `nar_size`.
    ///
    /// The request body then consists of exactly the raw, uncompressed bytes of the `inline`
    /// entries' chunk data, concatenated in the same order as they appear in the manifest.
    ///
    /// If the same chunk hash appears more than once in the manifest, only the first occurrence
    /// that actually needs uploading may be `inline`; every later occurrence of that hash must be
    /// a reference. The server processes entries sequentially in stream order, so the inline
    /// upload of the first occurrence has already made the chunk available by the time later
    /// references to it are resolved.
    ///
    /// Every referenced entry must already exist on the server, or the whole upload fails.
    pub chunk_manifest: Option<Vec<ChunkManifestEntry>>,
}

/// One entry of a chunk manifest, in NAR stream order.
#[derive(Clone, Copy, Debug)]
pub struct ChunkManifestEntry {
    /// SHA-256 hash of the uncompressed chunk data.
    pub hash: hash::Hash,

    /// Size of the uncompressed chunk data in bytes.
    pub size: usize,

    /// Whether the chunk's raw data is included inline in the request body.
    pub inline: bool,
}

/// What the server says of a finished upload.
#[derive(Debug)]
pub struct UploadPathResult {
    pub kind: UploadPathResultKind,

    /// The compressed size of the NAR, in bytes.
    pub file_size: Option<usize>,
}

/// How an upload ended.
#[derive(Clone, Copy, Debug, PartialEq, Eq, Structural)]
#[non_exhaustive]
pub enum UploadPathResultKind {
    /// The path was uploaded.
    ///
    /// This is purely informational and servers may return this variant even when the NAR is
    /// deduplicated.
    Uploaded,

    /// The path was globally deduplicated.
    Deduplicated,
}

impl Default for UploadPathResultKind {
    fn default() -> (r: Self)
        ensures
            r == UploadPathResultKind::Uploaded,
    {
        UploadPathResultKind::Uploaded
    }
}

/// No earlier chunk has the hash of chunk `i`.
pub open spec fn first_occurrence(chunks: Seq<(hash::Hash, usize)>, i: int) -> bool {
    forall|j: int| 0 <= j < i ==> #[trigger] chunks[j].0@ != chunks[i].0@
}

/// `manifest` describes `chunks` in order, with the first occurrence of each missing chunk inline.
pub open spec fn is_manifest_of(
    manifest: Seq<ChunkManifestEntry>,
    chunks: Seq<(hash::Hash, usize)>,
    missing: Set<Seq<u8>>,
) -> bool {
    &&& manifest.len() == chunks.len()
    &&& forall|i: int|
        #![trigger manifest[i]]
        0 <= i < manifest.len() ==> {
            &&& manifest[i].hash@ == chunks[i].0@
            &&& manifest[i].size == chunks[i].1
            &&& manifest[i].inline == (missing.contains(chunks[i].0@) && first_occurrence(
                chunks,
                i,
            ))
        }
}

/// Builds a chunk manifest from a NAR's ordered chunks and the set of chunk hashes the server
/// reported as missing.
///
/// An entry is `inline` iff its hash is in `missing` and no earlier chunk has the same hash. This
/// keeps repeated chunks (e.g. runs of zeroes) from being uploaded more than once even when the
/// whole chunk is missing server-side.
///
/// `chunks` must be in NAR stream order; the returned manifest preserves that order and each
/// entry's size.
pub fn build_chunk_manifest(chunks: &[(hash::Hash, usize)], missing: &HashIndex) -> (r: Vec<
    ChunkManifestEntry,
>)
    ensures
        is_manifest_of(r@, chunks@, missing@),
{
    let mut already_inlined = HashIndex::new();
    let mut manifest: Vec<ChunkManifestEntry> = Vec::new();
    let mut i: usize = 0;
    while i < chunks.len()
        invariant
            i <= chunks.len(),
            is_manifest_of(manifest@, chunks@.take(i as int), missing@),
            forall|h: Seq<u8>| #[trigger]
                already_inlined@.contains(h) <==> missing@.contains(h) && exists|j: int|
                    0 <= j < i && (#[trigger] chunks@[j]).0@ == h,
        decreases chunks.len() - i,
    {
        let hash = chunks[i].0;
        let ghost inlined_before = already_inlined@;
        let inline = missing.contains(&hash) && already_inlined.insert(hash);
        proof {
            let before = chunks@.take(i as int);
            let after = chunks@.take(i + 1);
            assert forall|k: int| 0 <= k < i implies first_occurrence(before, k)
                == first_occurrence(after, k) by {
                assert(forall|j: int| 0 <= j <= k ==> before[j] == after[j]);
                if first_occurrence(before, k) {
                    assert forall|j: int| 0 <= j < k implies #[trigger] after[j].0@ != after[k].0@ by {
                        assert(before[j].0@ != before[k].0@);
                    }
                }
                if first_occurrence(after, k) {
                    assert forall|j: int| 0 <= j < k implies #[trigger] before[j].0@
                        != before[k].0@ by {
                        assert(after[j].0@ != after[k].0@);
                    }
                }
            }
            assert(inline == (missing@.contains(hash@) && first_occurrence(after, i as int))) by {
                if missing@.contains(hash@) {
                    if inlined_before.contains(hash@) {
                        let j = choose|j: int| 0 <= j < i && (#[trigger] chunks@[j]).0@ == hash@;
                        assert(after[j].0@ == after[i as int].0@);
                    } else {
                        assert forall|j: int| 0 <= j < i implies #[trigger] after[j].0@
                            != after[i as int].0@ by {
                            assert(chunks@[j].0@ != hash@);
                        }
                    }
                }
            }
            assert forall|h: Seq<u8>| #[trigger]
                already_inlined@.contains(h) <==> missing@.contains(h) && exists|j: int|
                    0 <= j < i + 1 && (#[trigger] chunks@[j]).0@ == h by {
                assert(chunks@[i as int].0@ == hash@);
                if missing@.contains(h) && exists|j: int|
                    0 <= j < i + 1 && (#[trigger] chunks@[j]).0@ == h {
                    let j = choose|j: int| 0 <= j < i + 1 && (#[trigger] chunks@[j]).0@ == h;
                    if j < i {
                        assert(inlined_before.contains(h));
                    }
                }
            }
        }
        manifest.push(ChunkManifestEntry { hash, size: chunks[i].1, inline });
        i = i + 1;
    }
    proof {
        assert(chunks@.take(chunks@.len() as int) =~= chunks@);
    }
    manifest
}

/// The sum of the sizes of all entries.
pub open spec fn total_size(manifest: Seq<ChunkManifestEntry>) -> nat
    decreases manifest.len(),
{
    if manifest.len() == 0 {
        0
    } else {
        total_size(manifest.drop_last()) + manifest.last().size as nat
    }
}

/// The sum of the sizes of the inline entries.
pub open spec fn inline_size(manifest: Seq<ChunkManifestEntry>) -> nat
    decreases manifest.len(),
{
    if manifest.len() == 0 {
        0
    } else {
        inline_size(manifest.drop_last()) + if manifest.last().inline {
            manifest.last().size as nat
        } else {
            0
        }
    }
}

/// The sum of the sizes of the chunks that a manifest inlines: each missing one, once.
pub open spec fn inlined_size(chunks: Seq<(hash::Hash, usize)>, missing: Set<Seq<u8>>) -> nat
    decreases chunks.len(),
{
    if chunks.len() == 0 {
        0
    } else {
        inlined_size(chunks.drop_last(), missing) + if missing.contains(chunks.last().0@)
            && first_occurrence(chunks, chunks.len() - 1) {
            chunks.last().1 as nat
        } else {
            0
        }
    }
}

/// The sum of the sizes of all chunks.
pub open spec fn chunks_size(chunks: Seq<(hash::Hash, usize)>) -> nat
    decreases chunks.len(),
{
    if chunks.len() == 0 {
        0
    } else {
        chunks_size(chunks.drop_last()) + chunks.last().1 as nat
    }
}

proof fn lemma_sizes(manifest: Seq<ChunkManifestEntry>, chunks: Seq<(hash::Hash, usize)>)
    requires
        manifest.len() == chunks.len(),
        forall|i: int| 0 <= i < manifest.len() ==> (#[trigger] manifest[i]).size == chunks[i].1,
    ensures
        total_size(manifest) == chunks_size(chunks),
        inline_size(manifest) <= total_size(manifest),
    decreases manifest.len(),
{
    if manifest.len() > 0 {
        lemma_sizes(manifest.drop_last(), chunks.drop_last());
    }
}

proof fn lemma_inlined_size(
    manifest: Seq<ChunkManifestEntry>,
    chunks: Seq<(hash::Hash, usize)>,
    missing: Set<Seq<u8>>,
)
    requires
        is_manifest_of(manifest, chunks, missing),
    ensures
        inline_size(manifest) == inlined_size(chunks, missing),
    decreases manifest.len(),
{
    if manifest.len() > 0 {
        let m = manifest.drop_last();
        let c = chunks.drop_last();
        assert forall|i: int| 0 <= i < c.len() implies first_occurrence(c, i) == first_occurrence(
            chunks,
            i,
        ) by {
            if first_occurrence(c, i) {
                assert forall|j: int| 0 <= j < i implies #[trigger] chunks[j].0@
                    != chunks[i].0@ by {
                    assert(c[j].0@ != c[i].0@);
                }
            }
            if first_occurrence(chunks, i) {
                assert forall|j: int| 0 <= j < i implies #[trigger] c[j].0@ != c[i].0@ by {
                    assert(chunks[j].0@ != chunks[i].0@);
                }
            }
        }
        assert forall|i: int| #![trigger m[i]] 0 <= i < m.len() implies {
            &&& m[i].hash@ == c[i].0@
            &&& m[i].size == c[i].1
            &&& m[i].inline == (missing.contains(c[i].0@) && first_occurrence(c, i))
        } by {
            assert(m[i] == manifest[i]);
        }
        lemma_inlined_size(m, c, missing);
        assert(manifest[manifest.len() - 1] == manifest.last());
    }
}

/// The sizes in a manifest sum to the size of the NAR. The body is as long as the missing chunks,
/// each taken once, and no longer than the NAR.
pub proof fn law_manifest_sizes_sum_to_nar_size(
    manifest: Seq<ChunkManifestEntry>,
    chunks: Seq<(hash::Hash, usize)>,
    missing: Set<Seq<u8>>,
)
    requires
        is_manifest_of(manifest, chunks, missing),
    ensures
        total_size(manifest) == chunks_size(chunks),
        inline_size(manifest) == inlined_size(chunks, missing),
        inline_size(manifest) <= total_size(manifest),
{
    lemma_sizes(manifest, chunks);
    lemma_inlined_size(manifest, chunks, missing);
}

proof fn lemma_first_of(chunks: Seq<(hash::Hash, usize)>, i: int) -> (j: int)
    requires
        0 <= i < chunks.len(),
    ensures
        0 <= j <= i,
        chunks[j].0@ == chunks[i].0@,
        first_occurrence(chunks, j),
    decreases i,
{
    if first_occurrence(chunks, i) {
        i
    } else {
        let k = choose|k: int| 0 <= k < i && #[trigger] chunks[k].0@ == chunks[i].0@;
        lemma_first_of(chunks, k)
    }
}

/// Each missing chunk that occurs is inline exactly once, at or before any reference to it; a
/// chunk that is not missing is never inline.
pub proof fn law_missing_chunk_is_inlined_once(
    manifest: Seq<ChunkManifestEntry>,
    chunks: Seq<(hash::Hash, usize)>,
    missing: Set<Seq<u8>>,
    i: int,
)
    requires
        is_manifest_of(manifest, chunks, missing),
        0 <= i < manifest.len(),
    ensures
        missing.contains(manifest[i].hash@) ==> exists|j: int|
            0 <= j <= i && (#[trigger] manifest[j]).inline && manifest[j].hash@
                == manifest[i].hash@,
        forall|j: int, k: int|
            0 <= j < k < manifest.len() && (#[trigger] manifest[j]).inline && (
            #[trigger] manifest[k]).inline ==> manifest[j].hash@ != manifest[k].hash@,
        !missing.contains(manifest[i].hash@) ==> !manifest[i].inline,
{
    if missing.contains(manifest[i].hash@) {
        let j = lemma_first_of(chunks, i);
        assert(manifest[j].inline);
    }
    assert forall|j: int, k: int|
        0 <= j < k < manifest.len() && (#[trigger] manifest[j]).inline && (
        #[trigger] manifest[k]).inline implies manifest[j].hash@ != manifest[k].hash@ by {
        assert(chunks[j].0@ != chunks[k].0@);
    }
}

/// The concatenation of `pieces`.
pub open spec fn concatenated(pieces: Seq<Seq<u8>>) -> Seq<u8>
    decreases pieces.len(),
{
    if pieces.len() == 0 {
        Seq::empty()
    } else {
        pieces[0] + concatenated(pieces.drop_first())
    }
}

/// The request body of a negotiated upload: the data of the inline entries, in order.
pub open spec fn inline_body(manifest: Seq<ChunkManifestEntry>, pieces: Seq<Seq<u8>>) -> Seq<u8>
    decreases manifest.len(),
{
    if manifest.len() == 0 {
        Seq::empty()
    } else if manifest[0].inline {
        pieces[0] + inline_body(manifest.drop_first(), pieces.drop_first())
    } else {
        inline_body(manifest.drop_first(), pieces.drop_first())
    }
}

/// What a server that goes through the manifest in order makes of `body`, when it has the chunks
/// `stored`: an inline entry takes its bytes from the body and is stored, a reference is looked
/// up. `None` if the body ends early, is too long, or a reference is not there.
pub open spec fn reassembled(
    manifest: Seq<ChunkManifestEntry>,
    body: Seq<u8>,
    stored: Map<Seq<u8>, Seq<u8>>,
) -> Option<Seq<u8>>
    decreases manifest.len(),
{
    if manifest.len() == 0 {
        if body.len() == 0 {
            Some(Seq::empty())
        } else {
            None
        }
    } else if manifest[0].inline {
        if body.len() < manifest[0].size {
            None
        } else {
            let data = body.take(manifest[0].size as int);
            match reassembled(
                manifest.drop_first(),
                body.skip(manifest[0].size as int),
                stored.insert(manifest[0].hash@, data),
            ) {
                Some(rest) => Some(data + rest),
                None => None,
            }
        }
    } else if stored.contains_key(manifest[0].hash@) {
        match reassembled(manifest.drop_first(), body, stored) {
            Some(rest) => Some(stored[manifest[0].hash@] + rest),
            None => None,
        }
    } else {
        None
    }
}

proof fn lemma_reassembles_from(
    manifest: Seq<ChunkManifestEntry>,
    chunks: Seq<(hash::Hash, usize)>,
    missing: Set<Seq<u8>>,
    pieces: Seq<Seq<u8>>,
    stored: Map<Seq<u8>, Seq<u8>>,
    k: int,
)
    requires
        is_manifest_of(manifest, chunks, missing),
        pieces.len() == chunks.len(),
        0 <= k <= chunks.len(),
        forall|i: int| 0 <= i < chunks.len() ==> (#[trigger] pieces[i]).len() == chunks[i].1,
        forall|i: int, j: int|
            0 <= i < chunks.len() && 0 <= j < chunks.len() && #[trigger] chunks[i].0@
                == #[trigger] chunks[j].0@ ==> pieces[i] == pieces[j],
        forall|i: int|
            0 <= i < chunks.len() && (!missing.contains(#[trigger] chunks[i].0@) || exists|j: int|
                0 <= j < k && #[trigger] chunks[j].0@ == chunks[i].0@) ==> stored.contains_key(
                chunks[i].0@,
            ) && stored[chunks[i].0@] == pieces[i],
    ensures
        reassembled(manifest.skip(k), inline_body(manifest.skip(k), pieces.skip(k)), stored)
            == Some(concatenated(pieces.skip(k))),
    decreases chunks.len() - k,
{
    let m = manifest.skip(k);
    let p = pieces.skip(k);
    if k == chunks.len() {
        assert(m.len() == 0 && p.len() == 0);
    } else {
        assert(m[0] == manifest[k]);
        assert(p[0] == pieces[k]);
        assert(m.drop_first() =~= manifest.skip(k + 1));
        assert(p.drop_first() =~= pieces.skip(k + 1));
        let body = inline_body(m, p);
        let rest = inline_body(manifest.skip(k + 1), pieces.skip(k + 1));
        let h = chunks[k].0@;
        if m[0].inline {
            assert(body.take(m[0].size as int) =~= pieces[k]);
            assert(body.skip(m[0].size as int) =~= rest);
            let stored2 = stored.insert(h, pieces[k]);
            assert forall|i: int|
                0 <= i < chunks.len() && (!missing.contains(#[trigger] chunks[i].0@) || exists|
                    j: int,
                |
                    0 <= j < k + 1 && #[trigger] chunks[j].0@
                        == chunks[i].0@) implies stored2.contains_key(chunks[i].0@)
                && stored2[chunks[i].0@] == pieces[i] by {
                if chunks[i].0@ != h && missing.contains(chunks[i].0@) {
                    let j = choose|j: int|
                        0 <= j < k + 1 && #[trigger] chunks[j].0@ == chunks[i].0@;
                    assert(j < k);
                }
            }
            lemma_reassembles_from(manifest, chunks, missing, pieces, stored2, k + 1);
        } else {
            assert(stored.contains_key(h) && stored[h] == pieces[k]);
            assert forall|i: int|
                0 <= i < chunks.len() && (!missing.contains(#[trigger] chunks[i].0@) || exists|
                    j: int,
                |
                    0 <= j < k + 1 && #[trigger] chunks[j].0@
                        == chunks[i].0@) implies stored.contains_key(chunks[i].0@)
                && stored[chunks[i].0@] == pieces[i] by {
                if missing.contains(chunks[i].0@) {
                    let j = choose|j: int|
                        0 <= j < k + 1 && #[trigger] chunks[j].0@ == chunks[i].0@;
                    if j == k {
                        assert(chunks[k].0@ == chunks[i].0@);
                        assert(pieces[k] == pieces[i]);
                    }
                }
            }
            lemma_reassembles_from(manifest, chunks, missing, pieces, stored, k + 1);
        }
    }
}

/// A server that has every chunk it did not report as missing gets the whole NAR back from the
/// manifest and the body: every reference is resolved, and nothing of the body is left over.
///
/// `pieces` are the data of the chunks; chunks with the same hash have the same data.
pub proof fn law_negotiated_upload_reassembles(
    manifest: Seq<ChunkManifestEntry>,
    chunks: Seq<(hash::Hash, usize)>,
    missing: Set<Seq<u8>>,
    pieces: Seq<Seq<u8>>,
    stored: Map<Seq<u8>, Seq<u8>>,
)
    requires
        is_manifest_of(manifest, chunks, missing),
        pieces.len() == chunks.len(),
        forall|i: int| 0 <= i < chunks.len() ==> (#[trigger] pieces[i]).len() == chunks[i].1,
        forall|i: int, j: int|
            0 <= i < chunks.len() && 0 <= j < chunks.len() && #[trigger] chunks[i].0@
                == #[trigger] chunks[j].0@ ==> pieces[i] == pieces[j],
        forall|i: int|
            0 <= i < chunks.len() && !missing.contains(#[trigger] chunks[i].0@)
                ==> stored.contains_key(chunks[i].0@) && stored[chunks[i].0@] == pieces[i],
    ensures
        reassembled(manifest, inline_body(manifest, pieces), stored) == Some(concatenated(pieces)),
{
    lemma_reassembles_from(manifest, chunks, missing, pieces, stored, 0);
    assert(manifest.skip(0) =~= manifest);
    assert(pieces.skip(0) =~= pieces);
}

/// A manifest names every chunk, in order, with its hash and size. A chunk is inline exactly if it is
/// missing and no chunk before it has the same hash.
pub proof fn law_manifest_follows_the_chunks(
    chunks: &[(hash::Hash, usize)],
    missing: &HashIndex,
    r: Vec<ChunkManifestEntry>,
    i: int,
)
    requires
        call_ensures(build_chunk_manifest, (chunks, missing), r),
    ensures
        r@.len() == chunks@.len(),
        0 <= i < chunks@.len() ==> {
            &&& r@[i].hash@ == chunks@[i].0@
            &&& r@[i].size == chunks@[i].1
            &&& r@[i].inline <==> missing@.contains(chunks@[i].0@) && forall|k: int|
                0 <= k < i ==> (#[trigger] chunks@[k]).0@ != chunks@[i].0@
        },
{
    if 0 <= i < chunks@.len() {
        assert(r@[i].inline == (missing@.contains(chunks@[i].0@) && first_occurrence(chunks@, i)));
    }
}

/// Pieces joined are all of them, one after the other.
pub proof fn law_joined_pieces(pieces: Seq<Seq<u8>>)
    ensures
        concatenated(pieces) == pieces.flatten(),
    decreases pieces.len(),
{
    if pieces.len() > 0 {
        law_joined_pieces(pieces.drop_first());
    }
}

/// The body of a negotiated upload is the data of all inline entries, one after the other, and of no
/// others.
pub proof fn law_body_is_the_inline_data(
    manifest: Seq<ChunkManifestEntry>,
    pieces: Seq<Seq<u8>>,
)
    requires
        manifest.len() == pieces.len(),
    ensures
        inline_body(manifest, pieces) == Seq::new(
            manifest.len(),
            |i: int|
                if manifest[i].inline {
                    pieces[i]
                } else {
                    Seq::<u8>::empty()
                },
        ).flatten(),
    decreases manifest.len(),
{
    let parts = Seq::new(
        manifest.len(),
        |i: int|
            if manifest[i].inline {
                pieces[i]
            } else {
                Seq::<u8>::empty()
            },
    );
    if manifest.len() > 0 {
        let m = manifest.drop_first();
        let p = pieces.drop_first();
        law_body_is_the_inline_data(m, p);
        assert(parts.drop_first() =~= Seq::new(
            m.len(),
            |i: int|
                if m[i].inline {
                    p[i]
                } else {
                    Seq::<u8>::empty()
                },
        ));
        if !manifest[0].inline {
            assert(parts.first() + parts.drop_first().flatten() =~= parts.drop_first().flatten());
        }
    }
}

} // verus!
