//! Hashes and sizes of a NAR and of its compressed form, computed as they stream by.
use sha2::Sha256;
use vstd::prelude::*;

use crate::api::upload_path::{concatenated, law_joined_pieces};
use crate::hash;
use crate::hash::{hashed_input, sha256, sha256_finalize, sha256_new, sha256_update};

verus! {

/// Computes the hash and size of what is read, as it is read. The end of the data is a read of
/// nothing.
#[derive(Debug)]
pub struct HashReader {
    hasher: Sha256,
    size: usize,
    result: Option<(hash::Hash, usize)>,
}

/// The hash and size of `data`.
pub open spec fn hash_and_size(data: Seq<u8>) -> (Seq<u8>, nat) {
    (sha256(data), data.len())
}

/// The bytes of a hash and a size.
pub open spec fn result_view(result: Option<(hash::Hash, usize)>) -> Option<(Seq<u8>, nat)> {
    match result {
        Some((hash, size)) => Some((hash@, size as nat)),
        None => None,
    }
}

impl HashReader {
    /// Until the end, the hasher has taken in as many bytes as have been counted.
    pub closed spec fn well_formed(&self) -> bool {
        hashed_input(self.hasher).len() == self.size || self.result is Some
    }

    /// What has been read before the end.
    pub closed spec fn seen(&self) -> Seq<u8> {
        hashed_input(self.hasher)
    }

    /// The hash and size, once the end has been reached.
    pub closed spec fn outcome(&self) -> Option<(hash::Hash, usize)> {
        self.result
    }

    /// Nothing has been read yet.
    pub fn new() -> (r: HashReader)
        ensures
            r.well_formed(),
            r.seen() == Seq::<u8>::empty(),
            r.outcome() is None,
    {
        HashReader { hasher: sha256_new(), size: 0, result: None }
    }

    /// Takes in what was read.
    pub fn read(&mut self, data: &[u8])
        requires
            old(self).well_formed(),
            old(self).outcome() is None ==> old(self).seen().len() + data@.len() <= usize::MAX,
        ensures
            final(self).well_formed(),
            old(self).outcome() is Some ==> final(self).outcome() == old(self).outcome(),
            old(self).outcome() is None && data@.len() > 0 ==> final(self).outcome() is None && final(
            self).seen() == old(self).seen() + data@,
            old(self).outcome() is None && data@.len() == 0 ==> result_view(final(self).outcome())
                == Some(hash_and_size(old(self).seen())),
    {
        if self.result.is_some() {
            return ;
        }
        if data.len() == 0 {
            let mut hasher = sha256_new();
            std::mem::swap(&mut hasher, &mut self.hasher);
            self.result = Some((hash::Hash::from_digest(sha256_finalize(hasher)), self.size));
        } else {
            sha256_update(&mut self.hasher, data);
            self.size = self.size + data.len();
        }
    }

    /// The hash and size, once the end has been reached.
    pub fn hash_and_size(&self) -> (r: Option<&(hash::Hash, usize)>)
        ensures
            match r {
                Some(result) => self.outcome() == Some(*result),
                None => self.outcome() is None,
            },
    {
        match &self.result {
            Some(result) => Some(result),
            None => None,
        }
    }
}

/// How the hash and size of a NAR get known.
#[derive(Debug)]
enum NarHash {
    /// They are computed as the NAR streams by.
    Computed(HashReader),

    /// They were known before.
    Known((hash::Hash, usize)),
}

/// Applies compression to a stream, computing hashes along the way.
///
/// The strategy is to stream directly onto a file on the storage backend, performing compression
/// and computing the hashes along the way. The file is deleted if the hashes do not match.
///
/// ```text
///                    +-----------------------------------> NAR Hash
///                    |
///                    +-----------------------------------> NAR Size
///                    |
///              +-----+----+  +----------+  +-----------+
/// NAR Stream ->|NAR Hasher|->|Compressor|->|File Hasher|-> File Stream
///              +----------+  +----------+  +-----+-----+
///                                                |
///                                                +-------> File Hash
///                                                |
///                                                +-------> File Size
/// ```
///
/// `with_precomputed_nar_hash` skips the NAR hasher (the NAR hash and size are supplied up front
/// instead), for callers that already computed them over trusted data.
#[derive(Debug)]
pub struct CompressionStream {
    nar: NarHash,
    file: HashReader,
}

impl CompressionStream {
    /// Both hashers are in order.
    pub closed spec fn well_formed(&self) -> bool {
        &&& self.file.well_formed()
        &&& self.nar matches NarHash::Computed(reader) ==> reader.well_formed()
    }

    /// The hash and size of the NAR were known before.
    pub closed spec fn is_precomputed(&self) -> bool {
        self.nar is Known
    }

    /// What went into the compressor, unless the hash of the NAR was known before.
    pub closed spec fn nar_seen(&self) -> Seq<u8> {
        match self.nar {
            NarHash::Computed(reader) => reader.seen(),
            NarHash::Known(known) => Seq::empty(),
        }
    }

    /// The hash and size of the NAR, if they are known.
    pub closed spec fn nar_outcome(&self) -> Option<(hash::Hash, usize)> {
        match self.nar {
            NarHash::Computed(reader) => reader.outcome(),
            NarHash::Known(known) => Some(known),
        }
    }

    /// What came out of the compressor.
    pub closed spec fn file_seen(&self) -> Seq<u8> {
        self.file.seen()
    }

    /// The hash and size of the file, if they are known.
    pub closed spec fn file_outcome(&self) -> Option<(hash::Hash, usize)> {
        self.file.outcome()
    }

    /// The side of the NAR is the same in `other`.
    pub open spec fn same_nar(&self, other: &CompressionStream) -> bool {
        &&& self.is_precomputed() == other.is_precomputed()
        &&& self.nar_seen() == other.nar_seen()
        &&& self.nar_outcome() == other.nar_outcome()
    }

    /// The side of the file is the same in `other`.
    pub open spec fn same_file(&self, other: &CompressionStream) -> bool {
        self.file_seen() == other.file_seen() && self.file_outcome() == other.file_outcome()
    }

    /// Creates a new compression stream.
    pub fn new() -> (r: CompressionStream)
        ensures
            r.well_formed(),
            !r.is_precomputed(),
            r.nar_seen() == Seq::<u8>::empty(),
            r.nar_outcome() is None,
            r.file_seen() == Seq::<u8>::empty(),
            r.file_outcome() is None,
    {
        CompressionStream { nar: NarHash::Computed(HashReader::new()), file: HashReader::new() }
    }

    /// Creates a new compression stream with a precomputed NAR hash and size.
    ///
    /// For callers that already computed the uncompressed (NAR) hash and size over trusted in-memory
    /// data, this avoids a redundant hashing pass over the same bytes: `nar_hash_and_size()` returns
    /// the supplied value immediately instead of being finalized as the stream is read.
    pub fn with_precomputed_nar_hash(nar_hash_and_size: (hash::Hash, usize)) -> (r:
        CompressionStream)
        ensures
            r.well_formed(),
            r.is_precomputed(),
            r.nar_outcome() == Some(nar_hash_and_size),
            r.file_seen() == Seq::<u8>::empty(),
            r.file_outcome() is None,
    {
        CompressionStream { nar: NarHash::Known(nar_hash_and_size), file: HashReader::new() }
    }

    /// Takes in what the compressor reads. Its end is a read of nothing.
    pub fn nar_read(&mut self, data: &[u8])
        requires
            old(self).well_formed(),
            !old(self).is_precomputed() && old(self).nar_outcome() is None ==> old(
                self,
            ).nar_seen().len() + data@.len() <= usize::MAX,
        ensures
            final(self).well_formed(),
            final(self).same_file(old(self)),
            final(self).is_precomputed() == old(self).is_precomputed(),
            old(self).nar_outcome() is Some ==> final(self).nar_outcome() == old(
                self,
            ).nar_outcome(),
            old(self).nar_outcome() is None && data@.len() > 0 ==> final(self).nar_outcome() is None
                && final(self).nar_seen() == old(self).nar_seen() + data@,
            old(self).nar_outcome() is None && data@.len() == 0 ==> result_view(
                final(self).nar_outcome(),
            ) == Some(hash_and_size(old(self).nar_seen())),
    {
        match &mut self.nar {
            NarHash::Computed(reader) => reader.read(data),
            NarHash::Known(known) => {},
        }
    }

    /// Takes in what is read of the compressed stream. Its end is a read of nothing.
    pub fn file_read(&mut self, data: &[u8])
        requires
            old(self).well_formed(),
            old(self).file_outcome() is None ==> old(self).file_seen().len() + data@.len()
                <= usize::MAX,
        ensures
            final(self).well_formed(),
            final(self).same_nar(old(self)),
            old(self).file_outcome() is Some ==> final(self).file_outcome() == old(
                self,
            ).file_outcome(),
            old(self).file_outcome() is None && data@.len() > 0 ==> final(
            self).file_outcome() is None && final(self).file_seen() == old(self).file_seen()
                + data@,
            old(self).file_outcome() is None && data@.len() == 0 ==> result_view(
                final(self).file_outcome(),
            ) == Some(hash_and_size(old(self).file_seen())),
    {
        self.file.read(data);
    }

    /// Returns the NAR hash and size.
    ///
    /// Unless it was supplied, the hash is only finalized when the stream is fully read. Otherwise,
    /// returns `None`.
    pub fn nar_hash_and_size(&self) -> (r: Option<&(hash::Hash, usize)>)
        ensures
            match r {
                Some(result) => self.nar_outcome() == Some(*result),
                None => self.nar_outcome() is None,
            },
    {
        match &self.nar {
            NarHash::Computed(reader) => reader.hash_and_size(),
            NarHash::Known(known) => Some(known),
        }
    }

    /// Returns the file hash and size.
    ///
    /// The hash is only finalized when the stream is fully read. Otherwise, returns `None`.
    pub fn file_hash_and_size(&self) -> (r: Option<&(hash::Hash, usize)>)
        ensures
            match r {
                Some(result) => self.file_outcome() == Some(*result),
                None => self.file_outcome() is None,
            },
    {
        self.file.hash_and_size()
    }
}

/// The hash and size that a `HashReader` comes up with, when it has seen `seen` and these reads
/// follow.
pub open spec fn outcome_of_reads(seen: Seq<u8>, reads: Seq<Seq<u8>>) -> Option<(Seq<u8>, nat)>
    decreases reads.len(),
{
    if reads.len() == 0 {
        None
    } else if reads[0].len() == 0 {
        Some(hash_and_size(seen))
    } else {
        outcome_of_reads(seen + reads[0], reads.drop_first())
    }
}

proof fn lemma_outcome_of_reads(seen: Seq<u8>, pieces: Seq<Seq<u8>>)
    requires
        forall|i: int| 0 <= i < pieces.len() ==> (#[trigger] pieces[i]).len() > 0,
    ensures
        outcome_of_reads(seen, pieces.push(Seq::empty())) == Some(
            hash_and_size(seen + concatenated(pieces)),
        ),
    decreases pieces.len(),
{
    let reads = pieces.push(Seq::empty());
    if pieces.len() == 0 {
        assert(reads[0].len() == 0);
        assert(seen + concatenated(pieces) =~= seen);
    } else {
        assert(reads[0] == pieces[0]);
        assert(reads.drop_first() =~= pieces.drop_first().push(Seq::empty()));
        lemma_outcome_of_reads(seen + pieces[0], pieces.drop_first());
        assert(seen + pieces[0] + concatenated(pieces.drop_first()) =~= seen + concatenated(pieces));
    }
}

/// The hash and size that are computed along the way are those of the whole data, however the data
/// is cut up by the reads: the same that a caller computes beforehand.
pub proof fn law_computed_hash_is_the_precomputed_one(pieces: Seq<Seq<u8>>)
    requires
        forall|i: int| 0 <= i < pieces.len() ==> (#[trigger] pieces[i]).len() > 0,
    ensures
        outcome_of_reads(Seq::empty(), pieces.push(Seq::empty())) == Some(
            hash_and_size(concatenated(pieces)),
        ),
{
    lemma_outcome_of_reads(Seq::empty(), pieces);
    assert(Seq::<u8>::empty() + concatenated(pieces) =~= concatenated(pieces));
}

/// The end of the data fixes the hash and size: those of all that has been read before, and of nothing
/// else. A read before the end only adds to that, and after the end nothing changes any more.
pub proof fn law_end_fixes_hash_and_size(reader: &mut HashReader, data: &[u8], r: ())
    requires
        call_ensures(HashReader::read, (reader, data), r),
    ensures
        old(reader).outcome() is Some ==> final(reader).outcome() == old(reader).outcome(),
        old(reader).outcome() is None && data@.len() > 0 ==> final(reader).outcome() is None && final(reader).seen() == old(reader).seen() + data@,
        old(reader).outcome() is None && data@.len() == 0 ==> (final(reader).outcome() matches Some(
            (hash, size),
        ) && hash@ == sha256(old(reader).seen()) && size == old(reader).seen().len()),
{
}

/// Of a compression stream, what is read of the NAR counts for the NAR alone, and what is read of the
/// file for the file alone. A hash of the NAR that was supplied is never replaced.
pub proof fn law_nar_and_file_are_hashed_apart(
    stream: &mut CompressionStream,
    other: &mut CompressionStream,
    data: &[u8],
    r: (),
    r_other: (),
)
    requires
        call_ensures(CompressionStream::nar_read, (stream, data), r),
        call_ensures(CompressionStream::file_read, (other, data), r_other),
    ensures
        final(stream).is_precomputed() == old(stream).is_precomputed(),
        final(other).is_precomputed() == old(other).is_precomputed(),
        final(stream).file_seen() == old(stream).file_seen(),
        final(stream).file_outcome() == old(stream).file_outcome(),
        old(stream).nar_outcome() is Some ==> final(stream).nar_outcome() == old(stream).nar_outcome(),
        old(stream).nar_outcome() is None && data@.len() == 0 ==> (final(stream).nar_outcome() matches Some((hash, size)) && hash@ == sha256(old(stream).nar_seen())
            && size == old(stream).nar_seen().len()),
        old(stream).nar_outcome() is None && data@.len() > 0 ==> final(stream).nar_outcome() is None
            && final(stream).nar_seen() == old(stream).nar_seen() + data@,
        final(other).nar_seen() == old(other).nar_seen(),
        final(other).nar_outcome() == old(other).nar_outcome(),
        old(other).file_outcome() is Some ==> final(other).file_outcome() == old(other).file_outcome(),
        old(other).file_outcome() is None && data@.len() == 0 ==> (final(other).file_outcome() matches Some((hash, size)) && hash@ == sha256(old(other).file_seen())
            && size == old(other).file_seen().len()),
        old(other).file_outcome() is None && data@.len() > 0 ==> final(other).file_outcome() is None
            && final(other).file_seen() == old(other).file_seen() + data@,
{
}

/// The hash and size that come of reading some data in any pieces are the SHA-256 digest and the length
/// of the pieces joined.
pub proof fn law_pieces_do_not_change_the_hash(pieces: Seq<Seq<u8>>)
    requires
        forall|i: int| 0 <= i < pieces.len() ==> (#[trigger] pieces[i]).len() > 0,
    ensures
        outcome_of_reads(Seq::empty(), pieces.push(Seq::empty())) == Some(
            (sha256(pieces.flatten()), pieces.flatten().len()),
        ),
{
    law_computed_hash_is_the_precomputed_one(pieces);
    law_joined_pieces(pieces);
}

/// A hash that was known before is reported as it is, and says nothing of the compressed file.
pub proof fn law_known_hashes_are_reported(
    known: (hash::Hash, usize),
    stream: &CompressionStream,
    nar: Option<&(hash::Hash, usize)>,
    file: Option<&(hash::Hash, usize)>,
)
    requires
        call_ensures(CompressionStream::with_precomputed_nar_hash, (known,), *stream),
        call_ensures(CompressionStream::nar_hash_and_size, (stream,), nar),
        call_ensures(CompressionStream::file_hash_and_size, (stream,), file),
    ensures
        nar == Some(&known),
        file is None,
{
}

} // verus!
