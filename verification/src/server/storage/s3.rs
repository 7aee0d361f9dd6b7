//! S3 remote files.
use vstd::prelude::*;
use vstd::seq_lib::{
    to_multiset_build, to_multiset_contains, to_multiset_insert, to_multiset_len,
    to_multiset_remove,
};

use crate::api::upload_path::{concatenated, law_joined_pieces};
use crate::server::error::ErrorKind;
use crate::server::storage::{DownloadKind, RemoteFile};
use crate::text::text_eq;

verus! {

/// The chunk size for each part in a multipart upload: 8 MiB.
pub const CHUNK_SIZE: usize = 8388608;

/// For how long a presigned URL can be fetched, in seconds.
pub const PRESIGNED_SECONDS: u64 = 600;

/// S3 remote file storage configuration.
#[derive(Debug)]
pub struct S3StorageConfig {
    /// The AWS region.
    pub region: String,

    /// The name of the bucket.
    pub bucket: String,

    /// Custom S3 endpoint.
    ///
    /// Set this if you are using an S3-compatible object storage (e.g., Minio).
    pub endpoint: Option<String>,

    /// S3 credentials.
    ///
    /// If not specified, it's read from the `AWS_ACCESS_KEY_ID` and `AWS_SECRET_ACCESS_KEY`
    /// environment variables.
    pub credentials: Option<S3CredentialsConfig>,

    /// Maximum number of multipart part uploads in flight.
    pub multipart_concurrency: usize,
}

/// S3 credential configuration.
#[derive(Debug)]
pub struct S3CredentialsConfig {
    /// Access key ID.
    pub access_key_id: String,

    /// Secret access key.
    pub secret_access_key: String,
}

/// Reference to a file in an S3-compatible storage bucket.
///
/// The region and bucket are stored to facilitate migration.
#[derive(Debug)]
pub struct S3RemoteFile {
    /// Name of the S3 region.
    pub region: String,

    /// Name of the bucket.
    pub bucket: String,

    /// Key of the file.
    pub key: String,
}

/// How many part uploads are in flight unless configured otherwise.
pub fn default_multipart_concurrency() -> (r: usize)
    ensures
        r == 4,
{
    4
}

/// The message for a configuration that allows no part upload at all.
pub const CONCURRENCY_MESSAGE: &'static str =
    "storage.multipart-concurrency must be greater than zero";

impl S3StorageConfig {
    /// Whether the configuration can be used; else, what is wrong with it.
    pub fn validate(&self) -> (r: Result<(), String>)
        ensures
            match r {
                Ok(unit) => self.multipart_concurrency > 0,
                Err(message) => {
                    self.multipart_concurrency == 0 && message@ == CONCURRENCY_MESSAGE@
                },
            },
    {
        if self.multipart_concurrency > 0 {
            Ok(())
        } else {
            Err(CONCURRENCY_MESSAGE.to_owned())
        }
    }

    /// The reference to the file that is stored under `name`.
    pub fn make_db_reference(&self, name: String) -> (r: RemoteFile)
        ensures
            r matches RemoteFile::S3(file) && file.region@ == self.region@ && file.bucket@
                == self.bucket@ && file.key == name,
    {
        RemoteFile::S3(
            S3RemoteFile { region: self.region.clone(), bucket: self.bucket.clone(), key: name },
        )
    }
}

/// Which client reaches a file.
#[derive(Debug)]
pub enum ClientChoice {
    /// The backend's own.
    Own,

    /// One for the region of the file, which is not the backend's.
    ForRegion(String),
}

/// Which client reaches the file that `file` refers to, and where it is, for a backend whose client
/// is for `region`.
pub fn get_client_from_db_ref<'a>(region: &str, file: &'a RemoteFile) -> (r: Result<
    (ClientChoice, &'a S3RemoteFile),
    ErrorKind,
>)
    ensures
        match r {
            Ok((client, s3_file)) => {
                &&& *file == RemoteFile::S3(*s3_file)
                &&& match client {
                    ClientChoice::Own => s3_file.region@ == region@,
                    ClientChoice::ForRegion(other) => {
                        s3_file.region@ != region@ && other@ == s3_file.region@
                    },
                }
            },
            Err(error) => {
                &&& !(file is S3)
                &&& error matches ErrorKind::StorageError(message) && message@
                    == "Does not understand the remote file reference"@
            },
        },
{
    match file {
        RemoteFile::S3(file) => {
            if text_eq(file.region.as_str(), region) {
                Ok((ClientChoice::Own, file))
            } else {
                Ok((ClientChoice::ForRegion(file.region.clone()), file))
            }
        },
        _ => Err(
            ErrorKind::StorageError("Does not understand the remote file reference".to_owned()),
        ),
    }
}

/// How a file is handed out: as a stream if that is preferred, else by a presigned URL.
pub fn get_download(prefer_stream: bool) -> (r: DownloadKind)
    ensures
        r == (if prefer_stream {
            DownloadKind::AsyncRead
        } else {
            DownloadKind::Url { expires_in_seconds: PRESIGNED_SECONDS }
        }),
{
    if prefer_stream {
        DownloadKind::AsyncRead
    } else {
        DownloadKind::Url { expires_in_seconds: PRESIGNED_SECONDS }
    }
}

/// How a file is stored.
#[derive(Clone, Copy, Debug, PartialEq, Eq, Structural)]
pub enum UploadMode {
    /// In one request: the first chunk is the whole file.
    PutObject,

    /// In parts.
    Multipart,
}

/// How to store a file whose first chunk, of at most `CHUNK_SIZE` bytes, has the given size.
pub fn upload_mode(first_chunk_size: usize) -> (r: UploadMode)
    ensures
        r == (if first_chunk_size < CHUNK_SIZE {
            UploadMode::PutObject
        } else {
            UploadMode::Multipart
        }),
{
    if first_chunk_size < CHUNK_SIZE {
        UploadMode::PutObject
    } else {
        UploadMode::Multipart
    }
}

/// A part that the storage has.
#[derive(Debug)]
pub struct CompletedPart {
    pub part_number: i32,
    pub e_tag: Option<String>,
}

/// What a multipart upload does next.
#[derive(Clone, Copy, Debug, PartialEq, Eq, Structural)]
pub enum MultipartAction {
    /// Read the next chunk.
    ReadChunk,

    /// Wait for one of the parts that are in flight.
    AwaitPart,

    /// Put the parts together.
    Complete,
}

/// The course of a multipart upload.
///
/// No part is read until there is space for it: the parts that are in flight are the only
/// read-ahead buffer. Unless it is completed, the upload has to be aborted.
#[derive(Debug)]
pub struct MultipartUpload {
    concurrency: usize,
    next_part: i32,
    in_flight: Vec<i32>,
    completed_parts: Vec<CompletedPart>,
    all_read: bool,
    completed: bool,
}

/// The numbers of `parts`.
pub open spec fn part_numbers(parts: Seq<CompletedPart>) -> Seq<i32> {
    parts.map_values(|p: CompletedPart| p.part_number)
}

/// The numbers of `parts` grow from each to the next.
pub open spec fn strictly_sorted(parts: Seq<CompletedPart>) -> bool {
    forall|i: int, j: int|
        0 <= i < j < parts.len() ==> (#[trigger] parts[i]).part_number < (
        #[trigger] parts[j]).part_number
}

/// Each number from one to `n` occurs once in `numbers`, and nothing else does.
pub open spec fn numbers_up_to(numbers: Seq<i32>, n: int) -> bool {
    &&& numbers.no_duplicates()
    &&& numbers.len() == n
    &&& forall|i: int| 0 <= i < numbers.len() ==> 1 <= #[trigger] numbers[i] <= n
}

/// Puts `part` into its place among `parts`.
fn insert_part(parts: &mut Vec<CompletedPart>, part: CompletedPart)
    requires
        strictly_sorted(old(parts)@),
        forall|i: int|
            0 <= i < old(parts)@.len() ==> (#[trigger] old(parts)@[i]).part_number
                != part.part_number,
    ensures
        strictly_sorted(final(parts)@),
        exists|i: int|
            0 <= i <= old(parts)@.len() && final(parts)@ == #[trigger] old(parts)@.insert(i, part),
{
    let mut i: usize = parts.len();
    while i > 0 && parts[i - 1].part_number > part.part_number
        invariant
            i <= parts.len(),
            parts@ == old(parts)@,
            forall|k: int|
                i <= k < parts@.len() ==> (#[trigger] parts@[k]).part_number > part.part_number,
        decreases i,
    {
        i = i - 1;
    }
    parts.insert(i, part);
    proof {
        let before = old(parts)@;
        let after = parts@;
        assert(after == before.insert(i as int, part));
        assert forall|a: int, b: int| 0 <= a < b < after.len() implies (
        #[trigger] after[a]).part_number < (#[trigger] after[b]).part_number by {
            let a2 = if a < i { a } else { a - 1 };
            let b2 = if b < i { b } else { b - 1 };
            if a != i && b != i {
                assert(before[a2].part_number < before[b2].part_number);
            } else if b == i {
                assert(before[i - 1].part_number < part.part_number);
                if a < i - 1 {
                    assert(before[a].part_number < before[i - 1].part_number);
                }
            } else {
                assert(before[b2].part_number > part.part_number);
            }
        }
    }
}

/// Sorts `parts` by their numbers.
fn sort_parts(parts: Vec<CompletedPart>) -> (r: Vec<CompletedPart>)
    requires
        part_numbers(parts@).no_duplicates(),
    ensures
        strictly_sorted(r@),
        r@.to_multiset() == parts@.to_multiset(),
        r@.len() == parts@.len(),
        forall|p: CompletedPart| #[trigger] r@.contains(p) ==> parts@.contains(p),
{
    let ghost all = parts@;
    let mut out: Vec<CompletedPart> = Vec::new();
    proof {
        assert(all.take(0) =~= Seq::empty());
    }
    for part in it: parts
        invariant
            it.seq() == all,
            part_numbers(all).no_duplicates(),
            strictly_sorted(out@),
            out@.len() == it.index(),
            out@.to_multiset() == all.take(it.index()).to_multiset(),
            forall|k: int|
                0 <= k < out@.len() ==> all.take(it.index()).contains(#[trigger] out@[k]),
    {
        let ghost i = it.index();
        let ghost before = out@;
        proof {
            assert forall|k: int| 0 <= k < out@.len() implies (#[trigger] out@[k]).part_number
                != part.part_number by {
                let j = choose|j: int| 0 <= j < i && all.take(i)[j] == out@[k];
                assert(part_numbers(all)[j] != part_numbers(all)[i]);
            }
        }
        insert_part(&mut out, part);
        proof {
            let at = choose|at: int|
                0 <= at <= before.len() && out@ == #[trigger] before.insert(at, part);
            to_multiset_insert(before, at, part);
            to_multiset_build(all.take(i), part);
            assert(all.take(i + 1) =~= all.take(i).push(part));
            assert forall|k: int| 0 <= k < out@.len() implies all.take(i + 1).contains(
                #[trigger] out@[k],
            ) by {
                if k == at {
                    assert(all.take(i + 1)[i] == out@[k]);
                } else {
                    let k2 = if k < at { k } else { k - 1 };
                    assert(before[k2] == out@[k]);
                    let j = choose|j: int| 0 <= j < i && all.take(i)[j] == before[k2];
                    assert(all.take(i + 1)[j] == out@[k]);
                }
            }
        }
    }
    proof {
        assert(all.take(all.len() as int) =~= all);
        assert forall|p: CompletedPart| #[trigger] out@.contains(p) implies all.contains(p) by {
            let k = choose|k: int| 0 <= k < out@.len() && out@[k] == p;
            assert(all.take(all.len() as int).contains(out@[k]));
        }
    }
    out
}

proof fn lemma_at_least(parts: Seq<CompletedPart>, i: int)
    requires
        strictly_sorted(parts),
        forall|k: int| 0 <= k < parts.len() ==> 1 <= (#[trigger] parts[k]).part_number,
        0 <= i < parts.len(),
    ensures
        parts[i].part_number >= i + 1,
    decreases i,
{
    assert(1 <= parts[i].part_number);
    if i > 0 {
        lemma_at_least(parts, i - 1);
        assert(parts[i - 1].part_number < parts[i].part_number);
    }
}

proof fn lemma_at_most(parts: Seq<CompletedPart>, n: int, i: int)
    requires
        strictly_sorted(parts),
        parts.len() == n,
        forall|k: int| 0 <= k < parts.len() ==> (#[trigger] parts[k]).part_number <= n,
        0 <= i < parts.len(),
    ensures
        parts[i].part_number <= i + 1,
    decreases n - i,
{
    assert(parts[i].part_number <= n);
    if i < n - 1 {
        lemma_at_most(parts, n, i + 1);
        assert(parts[i].part_number < parts[i + 1].part_number);
    }
}

impl MultipartUpload {
    /// The state is one that `new` and the other methods lead to: each part that has been read is
    /// either in flight or completed, and no more are in flight than allowed.
    pub closed spec fn well_formed(&self) -> bool {
        &&& 1 <= self.next_part
        &&& 0 < self.concurrency
        &&& self.in_flight@.len() <= self.concurrency
        &&& numbers_up_to(
            self.in_flight@ + part_numbers(self.completed_parts@),
            self.next_part - 1,
        )
    }

    /// How many parts have been read.
    pub closed spec fn parts_read(&self) -> int {
        self.next_part - 1
    }

    /// The numbers of the parts that are in flight.
    pub closed spec fn flying(&self) -> Seq<i32> {
        self.in_flight@
    }

    /// The parts that the storage has, in the order in which they got there.
    pub closed spec fn stored(&self) -> Seq<CompletedPart> {
        self.completed_parts@
    }

    /// How many parts may be in flight.
    pub closed spec fn limit(&self) -> int {
        self.concurrency as int
    }

    /// Whether the stream has been read to its end.
    pub closed spec fn at_end(&self) -> bool {
        self.all_read
    }

    /// Whether the parts have been put together.
    pub closed spec fn is_completed(&self) -> bool {
        self.completed
    }

    /// What does not change when a part comes or goes.
    pub open spec fn same_course(&self, other: &MultipartUpload) -> bool {
        self.limit() == other.limit() && self.is_completed() == other.is_completed()
    }

    /// What has been read and is under way is the same in `other`.
    pub open spec fn same_progress(&self, other: &MultipartUpload) -> bool {
        &&& self.parts_read() == other.parts_read()
        &&& self.flying() == other.flying()
        &&& self.limit() == other.limit()
        &&& self.at_end() == other.at_end()
    }

    /// At the beginning of an upload, before the first part.
    pub fn new(concurrency: usize) -> (r: MultipartUpload)
        requires
            concurrency > 0,
        ensures
            r.well_formed(),
            r.parts_read() == 0,
            r.flying() == Seq::<i32>::empty(),
            r.stored() == Seq::<CompletedPart>::empty(),
            r.limit() == concurrency,
            !r.at_end(),
            !r.is_completed(),
    {
        let r = MultipartUpload {
            concurrency,
            next_part: 1,
            in_flight: Vec::new(),
            completed_parts: Vec::new(),
            all_read: false,
            completed: false,
        };
        proof {
            assert(r.in_flight@ + part_numbers(r.completed_parts@) =~= Seq::<i32>::empty());
        }
        r
    }

    /// What to do next: while there is something to read, a chunk is read as soon as a part more may
    /// be in flight; afterwards, the parts are awaited and put together.
    pub fn next(&self) -> (r: MultipartAction)
        requires
            self.well_formed(),
        ensures
            r == (if !self.at_end() {
                if self.flying().len() == self.limit() {
                    MultipartAction::AwaitPart
                } else {
                    MultipartAction::ReadChunk
                }
            } else if self.flying().len() > 0 {
                MultipartAction::AwaitPart
            } else {
                MultipartAction::Complete
            }),
            self.flying().len() <= self.limit(),
    {
        if !self.all_read {
            if self.in_flight.len() == self.concurrency {
                MultipartAction::AwaitPart
            } else {
                MultipartAction::ReadChunk
            }
        } else if self.in_flight.len() > 0 {
            MultipartAction::AwaitPart
        } else {
            MultipartAction::Complete
        }
    }

    /// A chunk of the given size was read. Returns the number of the part to upload it as, or `None`
    /// if it is empty and thus the end of the stream.
    pub fn chunk_read(&mut self, size: usize) -> (r: Option<i32>)
        requires
            old(self).well_formed(),
            !old(self).at_end(),
            old(self).flying().len() < old(self).limit(),
            size > 0 ==> old(self).parts_read() < i32::MAX - 1,
        ensures
            final(self).well_formed(),
            final(self).same_course(old(self)),
            final(self).stored() == old(self).stored(),
            match r {
                Some(number) => {
                    &&& size > 0
                    &&& number == old(self).parts_read() + 1
                    &&& final(self).parts_read() == old(self).parts_read() + 1
                    &&& final(self).flying() == old(self).flying().push(number)
                    &&& !final(self).at_end()
                },
                None => {
                    &&& size == 0
                    &&& final(self).parts_read() == old(self).parts_read()
                    &&& final(self).flying() == old(self).flying()
                    &&& final(self).at_end()
                },
            },
    {
        if size == 0 {
            self.all_read = true;
            return None;
        }
        let number: i32 = self.next_part;
        self.in_flight.push(number);
        self.next_part = number + 1;
        proof {
            let before = old(self).in_flight@ + part_numbers(old(self).completed_parts@);
            let after = self.in_flight@ + part_numbers(self.completed_parts@);
            let n = old(self).in_flight@.len() as int;
            assert forall|i: int| 0 <= i < after.len() implies after[i] == (if i < n {
                before[i]
            } else if i == n {
                number
            } else {
                before[i - 1]
            }) by {}
            assert forall|i: int, j: int|
                0 <= i < after.len() && 0 <= j < after.len() && i != j implies after[i]
                != after[j] by {
                let i2 = if i < n { i } else { i - 1 };
                let j2 = if j < n { j } else { j - 1 };
                if i != n && j != n {
                    assert(before[i2] != before[j2]);
                } else if i == n {
                    assert(before[j2] <= number - 1);
                } else {
                    assert(before[i2] <= number - 1);
                }
            }
            assert forall|i: int| 0 <= i < after.len() implies 1 <= #[trigger] after[i]
                <= number by {
                let i2 = if i < n { i } else { i - 1 };
                if i != n {
                    assert(1 <= before[i2] <= number - 1);
                }
            }
        }
        Some(number)
    }

    /// A part that was in flight got to the storage.
    pub fn part_stored(&mut self, part: CompletedPart)
        requires
            old(self).well_formed(),
            old(self).flying().contains(part.part_number),
        ensures
            final(self).well_formed(),
            final(self).same_course(old(self)),
            final(self).at_end() == old(self).at_end(),
            final(self).parts_read() == old(self).parts_read(),
            final(self).stored() == old(self).stored().push(part),
            final(self).flying().len() == old(self).flying().len() - 1,
            final(self).flying().to_multiset() == old(self).flying().to_multiset().remove(
                part.part_number,
            ),
    {
        let ghost flying = self.in_flight@;
        let ghost at = choose|at: int| 0 <= at < flying.len() && flying[at] == part.part_number;
        let mut i: usize = 0;
        while self.in_flight[i] != part.part_number
            invariant
                0 <= at < flying.len(),
                flying == self.in_flight@,
                flying[at] == part.part_number,
                i <= at,
                i < self.in_flight.len(),
                *self == *old(self),
            decreases flying.len() - i,
        {
            i = i + 1;
        }
        let number: i32 = self.in_flight.remove(i);
        self.completed_parts.push(part);
        proof {
            to_multiset_remove(flying, i as int);
            let n = flying.len() as int;
            let done = part_numbers(old(self).completed_parts@);
            let before = flying + done;
            let after = self.in_flight@ + part_numbers(self.completed_parts@);
            assert(after.len() == before.len());
            let last = after.len() - 1;
            assert forall|k: int| 0 <= k < after.len() implies #[trigger] after[k] == before[(
            if k < i {
                k
            } else if k < last {
                k + 1
            } else {
                i as int
            })] by {
                if k == last {
                    assert(after[k] == part.part_number);
                }
            }
            assert forall|a: int, b: int|
                0 <= a < after.len() && 0 <= b < after.len() && a != b implies after[a]
                != after[b] by {
                let a2 = if a < i { a } else if a < last { a + 1 } else { i as int };
                let b2 = if b < i { b } else if b < last { b + 1 } else { i as int };
                assert(after[a] == before[a2] && after[b] == before[b2]);
                assert(before[a2] != before[b2]);
            }
        }
    }

    /// Takes out the parts in the order of their numbers, for the request that puts them together.
    pub fn completed_upload(&mut self) -> (r: Vec<CompletedPart>)
        requires
            old(self).well_formed(),
            old(self).at_end(),
            old(self).flying().len() == 0,
        ensures
            r@.len() == old(self).parts_read(),
            forall|i: int| 0 <= i < r@.len() ==> (#[trigger] r@[i]).part_number == i + 1,
            r@.to_multiset() == old(self).stored().to_multiset(),
            final(self).same_progress(old(self)),
            final(self).stored() == Seq::<CompletedPart>::empty(),
            final(self).is_completed() == old(self).is_completed(),
    {
        let mut parts: Vec<CompletedPart> = Vec::new();
        std::mem::swap(&mut parts, &mut self.completed_parts);
        proof {
            let numbers = part_numbers(parts@);
            assert(old(self).in_flight@ + numbers =~= numbers);
        }
        let ghost n = self.next_part - 1;
        let ghost all = parts@;
        let sorted = sort_parts(parts);
        proof {
            assert forall|k: int| 0 <= k < sorted@.len() implies 1 <= (
            #[trigger] sorted@[k]).part_number <= n by {
                assert(sorted@.contains(sorted@[k]));
                let j = choose|j: int| 0 <= j < all.len() && all[j] == sorted@[k];
                assert(1 <= part_numbers(all)[j] <= n);
            }
            assert forall|i: int| 0 <= i < sorted@.len() implies (#[trigger] sorted@[i]).part_number
                == i + 1 by {
                lemma_at_least(sorted@, i);
                lemma_at_most(sorted@, n, i);
            }
        }
        sorted
    }

    /// The parts, which `completed_upload` has handed out, have been put together.
    pub fn complete(&mut self)
        requires
            old(self).at_end(),
            old(self).flying().len() == 0,
            old(self).stored().len() == 0,
        ensures
            final(self).same_progress(old(self)),
            final(self).stored() == old(self).stored(),
            final(self).is_completed(),
    {
        self.completed = true;
    }

    /// Whether the storage has to be told to drop the parts, when the upload ends now.
    pub fn must_abort(&self) -> (r: bool)
        ensures
            r == !self.is_completed(),
    {
        !self.completed
    }
}

/// The file that the storage makes of `parts`, when the part with number `n` holds
/// `bodies[n - 1]`.
pub open spec fn assembled(parts: Seq<CompletedPart>, bodies: Seq<Seq<u8>>) -> Seq<u8> {
    concatenated(parts.map_values(|p: CompletedPart| bodies[p.part_number - 1]))
}

/// Whatever the order in which the parts got to the storage, the file is put together from the
/// chunks in the order in which they were read.
pub proof fn law_parts_make_up_the_file(parts: Seq<CompletedPart>, bodies: Seq<Seq<u8>>)
    requires
        parts.len() == bodies.len(),
        forall|i: int| 0 <= i < parts.len() ==> (#[trigger] parts[i]).part_number == i + 1,
    ensures
        assembled(parts, bodies) == concatenated(bodies),
{
    assert(parts.map_values(|p: CompletedPart| bodies[p.part_number - 1]) =~= bodies);
}

/// A file that does not fill its first chunk of 8 MiB is stored in one request, any other in parts.
pub proof fn law_small_files_are_stored_at_once(first_chunk_size: usize, r: UploadMode)
    requires
        call_ensures(upload_mode, (first_chunk_size,), r),
    ensures
        r is PutObject <==> first_chunk_size < 8 * 1024 * 1024,
{
}

/// A reference that the backend made leads back to the file: same key, same bucket, by the backend's own
/// client. A backend of another region reaches it with a client for the file's region.
pub proof fn law_references_lead_back_to_the_file(
    config: &S3StorageConfig,
    name: String,
    file: &RemoteFile,
    region: &str,
    r: Result<(ClientChoice, &S3RemoteFile), ErrorKind>,
)
    requires
        call_ensures(S3StorageConfig::make_db_reference, (config, name), *file),
        call_ensures(get_client_from_db_ref, (region, file), r),
    ensures
        r matches Ok(found) && {
            &&& found.1.key@ == name@
            &&& found.1.bucket@ == config.bucket@
            &&& found.1.region@ == config.region@
            &&& region@ == config.region@ ==> found.0 is Own
            &&& region@ != config.region@ ==> (found.0 matches ClientChoice::ForRegion(other)
                && other@ == config.region@)
        },
{
}

/// Files of another storage are refused.
pub proof fn law_other_storages_are_refused(
    region: &str,
    file: &RemoteFile,
    r: Result<(ClientChoice, &S3RemoteFile), ErrorKind>,
)
    requires
        call_ensures(get_client_from_db_ref, (region, file), r),
    ensures
        r is Ok <==> file is S3,
        r matches Err(error) ==> error is StorageError,
{
}

/// A file is streamed if that is preferred, and otherwise handed out by a URL that lasts ten minutes.
pub proof fn law_urls_last_ten_minutes(stream: DownloadKind, url: DownloadKind)
    requires
        call_ensures(get_download, (true,), stream),
        call_ensures(get_download, (false,), url),
    ensures
        stream is AsyncRead,
        url == (DownloadKind::Url { expires_in_seconds: 600 }),
{
}

/// Without any part upload in flight nothing could be uploaded; any other number will do, and so will the
/// default.
pub proof fn law_some_part_has_to_be_in_flight(
    config: &S3StorageConfig,
    r: Result<(), String>,
    default: usize,
)
    requires
        call_ensures(S3StorageConfig::validate, (config,), r),
        call_ensures(default_multipart_concurrency, (), default),
    ensures
        r is Ok <==> config.multipart_concurrency != 0,
        default > 0,
{
}

/// Chunks are read while fewer parts are in flight than allowed; a part is awaited only while there is
/// one in flight. The parts are put together when everything was read and nothing is in flight any more,
/// and not before.
pub proof fn law_upload_never_waits_in_vain(upload: &MultipartUpload, r: MultipartAction)
    requires
        upload.well_formed(),
        call_ensures(MultipartUpload::next, (upload,), r),
    ensures
        r is ReadChunk ==> !upload.at_end() && upload.flying().len() < upload.limit(),
        r is AwaitPart ==> upload.flying().len() > 0,
        r is Complete <==> upload.at_end() && upload.flying().len() == 0,
        !upload.at_end() && upload.flying().len() < upload.limit() ==> r is ReadChunk,
{
}

/// Chunks become parts numbered one by one as they are read; an empty chunk is the end and no part.
pub proof fn law_chunks_are_numbered_as_they_are_read(
    upload: &mut MultipartUpload,
    size: usize,
    r: Option<i32>,
)
    requires
        call_ensures(MultipartUpload::chunk_read, (upload, size), r),
    ensures
        r is None <==> size == 0,
        final(upload).at_end() <==> size == 0,
        size > 0 ==> {
            &&& r == Some((old(upload).parts_read() + 1) as i32)
            &&& final(upload).parts_read() == old(upload).parts_read() + 1
            &&& final(upload).flying() == old(upload).flying().push(r->0)
        },
        size == 0 ==> final(upload).parts_read() == old(upload).parts_read(),
        size == 0 ==> final(upload).flying() == old(upload).flying(),
        final(upload).stored() == old(upload).stored(),
        final(upload).limit() == old(upload).limit(),
        final(upload).is_completed() == old(upload).is_completed(),
{
}

/// A part that got to the storage is in flight no more, and is kept as it came. The others fly on.
pub proof fn law_stored_parts_are_kept(
    upload: &mut MultipartUpload,
    part: CompletedPart,
    other: i32,
)
    requires
        call_ensures(MultipartUpload::part_stored, (upload, part), ()),
        old(upload).flying().contains(part.part_number),
    ensures
        final(upload).stored() == old(upload).stored().push(part),
        final(upload).flying().len() + 1 == old(upload).flying().len(),
        other != part.part_number ==> (final(upload).flying().contains(other) <==> old(
            upload,
        ).flying().contains(other)),
        final(upload).parts_read() == old(upload).parts_read(),
        final(upload).at_end() == old(upload).at_end(),
        final(upload).limit() == old(upload).limit(),
        final(upload).is_completed() == old(upload).is_completed(),
{
    to_multiset_contains(old(upload).flying(), other);
    to_multiset_contains(final(upload).flying(), other);
}

/// Every part that the storage has is handed out for the request that puts them together, once, in the
/// order in which the chunks were read: so that, whatever the order in which they got to the storage, the
/// file is made of what was read, in order.
pub proof fn law_all_stored_parts_are_put_together(
    upload: &mut MultipartUpload,
    r: Vec<CompletedPart>,
    part: CompletedPart,
    bodies: Seq<Seq<u8>>,
)
    requires
        call_ensures(MultipartUpload::completed_upload, (upload,), r),
        bodies.len() == old(upload).parts_read(),
    ensures
        r@.contains(part) <==> old(upload).stored().contains(part),
        r@.len() == old(upload).stored().len(),
        forall|i: int| 0 <= i < r@.len() ==> (#[trigger] r@[i]).part_number == i + 1,
        Seq::new(r@.len(), |i: int| bodies[r@[i].part_number - 1]).flatten() == bodies.flatten(),
        assembled(r@, bodies) == bodies.flatten(),
        final(upload).stored().len() == 0,
        final(upload).parts_read() == old(upload).parts_read(),
        final(upload).flying() == old(upload).flying(),
        final(upload).limit() == old(upload).limit(),
        final(upload).at_end() == old(upload).at_end(),
        final(upload).is_completed() == old(upload).is_completed(),
{
    to_multiset_contains(r@, part);
    to_multiset_contains(old(upload).stored(), part);
    to_multiset_len(r@);
    to_multiset_len(old(upload).stored());
    assert(Seq::new(r@.len(), |i: int| bodies[r@[i].part_number - 1]) =~= bodies);
    law_parts_make_up_the_file(r@, bodies);
    law_joined_pieces(bodies);
}

/// An upload is aborted unless its parts were put together.
pub proof fn law_uploads_are_completed_or_aborted(
    upload: &mut MultipartUpload,
    before: bool,
    after: &MultipartUpload,
    r: bool,
)
    requires
        !old(upload).is_completed(),
        call_ensures(MultipartUpload::must_abort, (&*old(upload),), before),
        call_ensures(MultipartUpload::complete, (upload,), ()),
        *after == *final(upload),
        call_ensures(MultipartUpload::must_abort, (after,), r),
    ensures
        before,
        !r,
        after.parts_read() == old(upload).parts_read(),
        after.flying() == old(upload).flying(),
        after.stored() == old(upload).stored(),
        after.limit() == old(upload).limit(),
        after.at_end() == old(upload).at_end(),
{
}

} // verus!
