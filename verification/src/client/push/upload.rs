//! The upload of a single path.
use vstd::prelude::*;
use vstd::utf8::{encode_utf8, valid_utf8};

use crate::api::cache_config::ChunkingParameters;
use crate::api::upload_path::{
    ChunkManifestEntry, UploadPathNarInfo, UploadPathResult, UploadPathResultKind,
};
use crate::byte_buf::bytes_of;
use crate::client::api::upload::{
    backoff_cap, full_jitter_backoff, is_jitter, is_retryable, requested_delay, RetryStep,
    UploadAttempt, UploadAttemptError, UploadPathMetadata, UploadPathRequest, UploadRetries,
    UPLOAD_BACKOFF_CAP, UPLOAD_MAX_ATTEMPTS,
};
use crate::client::api::{ApiClient, ApiError};
use crate::client::error::ClientError;
use crate::client::push::negotiation::NegotiatedManifest;
use crate::encoding::{is_utf8_of, text_from_utf8};
use crate::names::{CacheName, ValidPathInfo};
use crate::urls::joined_url;

verus! {

/// Configuration for pushing store paths.
#[derive(Clone, Copy, Debug)]
pub struct PushConfig {
    /// The number of workers to spawn.
    pub num_workers: usize,

    /// Whether to always include the upload info in the PUT payload.
    pub force_preamble: bool,
}

/// Configuration for a push session.
#[derive(Clone, Copy, Debug)]
pub struct PushSessionConfig {
    /// Push the specified paths only and do not compute closures.
    pub no_closure: bool,

    /// Ignore the upstream cache filter.
    pub ignore_upstream_cache_filter: bool,
}

/// Whether to negotiate a chunk manifest: iff the server advertises chunking parameters and the NAR
/// is large enough to trigger chunking server-side. A threshold of 0 disables chunking server-side.
/// The server does not advertise chunking in that case, but it is checked here too for extra safety.
pub fn should_negotiate(chunking: Option<&ChunkingParameters>, nar_size: usize) -> (r: bool)
    ensures
        r == (chunking matches Some(chunking) && 0 < chunking.nar_size_threshold <= nar_size),
{
    match chunking {
        Some(chunking) => chunking.nar_size_threshold > 0 && nar_size
            >= chunking.nar_size_threshold,
        None => false,
    }
}

/// What a path is uploaded with once the negotiation is over: the manifest, if one came of it.
/// Negotiation is an optimization only, so one that failed leads to a plain full upload as well.
pub fn negotiated_or_full<E>(negotiation: Result<Option<NegotiatedManifest>, E>) -> (r: Option<
    NegotiatedManifest,
>)
    ensures
        match negotiation {
            Ok(negotiated) => r == negotiated,
            Err(error) => r is None,
        },
{
    match negotiation {
        Ok(negotiated) => negotiated,
        Err(_) => None,
    }
}

fn references_text(references: &Vec<Vec<u8>>) -> (r: Option<Vec<String>>)
    ensures
        match r {
            Some(texts) => {
                &&& texts@.len() == references@.len()
                &&& forall|i: int|
                    0 <= i < texts@.len() ==> is_utf8_of(references@[i]@, #[trigger] texts@[i]@)
            },
            None => exists|i: int|
                0 <= i < references@.len() && !valid_utf8(#[trigger] references@[i]@),
        },
{
    let mut texts: Vec<String> = Vec::new();
    let mut i: usize = 0;
    while i < references.len()
        invariant
            i <= references.len(),
            texts@.len() == i,
            forall|k: int|
                0 <= k < i ==> is_utf8_of(references@[k]@, #[trigger] texts@[k]@),
        decreases references.len() - i,
    {
        match text_from_utf8(references[i].as_slice()) {
            Some(text) => texts.push(text),
            None => {
                proof {
                    assert(!valid_utf8(references@[i as int]@));
                }
                return None;
            },
        }
        i = i + 1;
    }
    Some(texts)
}

/// Builds the upload info for either a negotiated (with a chunk manifest) or a plain (full-upload)
/// attempt. `full_path` is the path with the store directory.
pub fn build_upload_info(
    path_info: &ValidPathInfo,
    full_path: &Vec<u8>,
    cache: &CacheName,
    chunk_manifest: Option<Vec<ChunkManifestEntry>>,
) -> (r: Result<UploadPathNarInfo, ClientError>)
    ensures
        match r {
            Ok(info) => {
                &&& info.cache@ == cache@
                &&& info.store_path_hash@ == path_info.path.hash@
                &&& is_utf8_of(full_path@, info.store_path@)
                &&& info.references@.len() == path_info.references@.len()
                &&& forall|i: int|
                    0 <= i < info.references@.len() ==> is_utf8_of(
                        path_info.references@[i]@,
                        #[trigger] info.references@[i]@,
                    )
                &&& info.system is None
                &&& info.deriver is None
                &&& info.sigs@ == path_info.sigs@
                &&& info.ca == path_info.ca
                &&& info.nar_hash@ == path_info.nar_hash@
                &&& info.nar_size == path_info.nar_size as usize
                &&& info.chunk_manifest == chunk_manifest
            },
            Err(ClientError::PathNotUtf8) => !valid_utf8(full_path@),
            Err(ClientError::ReferenceNotUtf8) => valid_utf8(full_path@) && exists|i: int|
                0 <= i < path_info.references@.len() && !valid_utf8(
                    #[trigger] path_info.references@[i]@,
                ),
            Err(error) => false,
        },
{
    let store_path = match text_from_utf8(full_path.as_slice()) {
        Some(text) => text,
        None => {
            return Err(ClientError::PathNotUtf8);
        },
    };
    let references = match references_text(&path_info.references) {
        Some(references) => references,
        None => {
            return Err(ClientError::ReferenceNotUtf8);
        },
    };
    let sigs = path_info.sigs.clone();
    proof {
        assert(sigs@ =~= path_info.sigs@);
    }
    let ca = match &path_info.ca {
        Some(ca) => Some(ca.clone()),
        None => None,
    };
    Ok(
        UploadPathNarInfo {
            cache: cache.clone(),
            store_path_hash: path_info.path.to_hash(),
            store_path,
            references,
            system: None,
            deriver: None,
            sigs,
            ca,
            nar_hash: path_info.nar_hash,
            nar_size: path_info.nar_size as usize,
            chunk_manifest,
        },
    )
}

/// Prepares a negotiated upload. The manifest can be too large for a header, so the upload info, of
/// which `upload_info_json` is the JSON form, always goes into the preamble.
pub fn prepare_negotiated_upload(
    client: &ApiClient,
    upload_info_json: String,
    negotiated: &NegotiatedManifest,
) -> (r: Result<UploadPathRequest, ClientError>)
    ensures
        ({
            let url = joined_url(client@, "_api/v1/upload-path"@);
            let json = encode_utf8(upload_info_json@);
            let length = json.len() + negotiated.total_inline_bytes;
            match r {
                Ok(request) => {
                    &&& url == Ok::<Seq<char>, Seq<char>>(request.endpoint@)
                    &&& request.metadata matches UploadPathMetadata::Preamble(bytes) && bytes_of(
                        bytes,
                    ) == json
                    &&& request.content_length == length
                },
                Err(ClientError::InvalidUrl(message)) => {
                    url == Err::<Seq<char>, Seq<char>>(message@)
                },
                Err(ClientError::ContentLengthOverflow) => url is Ok && length > u64::MAX,
                Err(error) => false,
            }
        }),
{
    client.prepare_upload_path(upload_info_json, true, negotiated.total_inline_bytes)
}

/// What is sent in an attempt.
#[derive(Clone, Copy, Debug, PartialEq, Eq, Structural)]
pub enum UploadKind {
    /// The inline chunks of a negotiated manifest.
    Negotiated,

    /// The whole NAR.
    Full {
        /// Which of the full attempts it is.
        attempt: usize,
    },
}

/// What is sent first: the inline chunks, if there is a manifest.
pub open spec fn first_kind(negotiated: bool) -> UploadKind {
    if negotiated {
        UploadKind::Negotiated
    } else {
        UploadKind::Full { attempt: 1 }
    }
}

/// Another attempt is made after one that failed with `error`. A negotiated one may fail for any
/// reason.
pub open spec fn tries_again(kind: UploadKind, error: UploadAttemptError) -> bool {
    match kind {
        UploadKind::Negotiated => true,
        UploadKind::Full { attempt } => is_retryable(error) && attempt < UPLOAD_MAX_ATTEMPTS,
    }
}

/// What is sent after an attempt that failed: the whole NAR. A negotiated attempt does not count as
/// one of the full ones.
pub open spec fn after_failure(kind: UploadKind) -> UploadKind {
    match kind {
        UploadKind::Negotiated => UploadKind::Full { attempt: 1 },
        UploadKind::Full { attempt } => UploadKind::Full { attempt: (attempt + 1) as usize },
    }
}

/// The number of the full attempt that is made, or would be next.
pub open spec fn full_attempt_of(kind: UploadKind) -> usize {
    match kind {
        UploadKind::Negotiated => 1,
        UploadKind::Full { attempt } => attempt,
    }
}

/// The course of the upload of a path.
///
/// The first attempt is the negotiated upload, if there is a manifest; any subsequent attempt is a
/// full upload. A negotiated attempt that fails for any reason falls back to the full upload
/// immediately, without consuming one of its attempts.
#[derive(Debug)]
pub struct PathUpload {
    /// The full attempts; `None` as long as the negotiated attempt comes first.
    full: Option<UploadRetries>,
}

impl PathUpload {
    /// What is sent next.
    pub closed spec fn next_kind(&self) -> UploadKind {
        match self.full {
            Some(retries) => UploadKind::Full { attempt: retries.attempt_number() },
            None => UploadKind::Negotiated,
        }
    }

    /// Before the first attempt.
    pub fn new(negotiated: bool) -> (r: PathUpload)
        ensures
            r.next_kind() == first_kind(negotiated),
    {
        let full = if negotiated {
            None
        } else {
            Some(UploadRetries::new())
        };
        PathUpload { full }
    }

    /// What to send next.
    pub fn kind(&self) -> (r: UploadKind)
        ensures
            r == self.next_kind(),
            1 <= full_attempt_of(r) <= UPLOAD_MAX_ATTEMPTS,
    {
        match &self.full {
            Some(retries) => UploadKind::Full { attempt: retries.attempt() },
            None => UploadKind::Negotiated,
        }
    }

    /// The attempt succeeded.
    pub fn succeeded<T>(&self, value: T) -> (r: UploadAttempt<T>)
        ensures
            r.value == value,
            r.attempts == full_attempt_of(self.next_kind()),
    {
        match &self.full {
            Some(retries) => retries.succeeded(value),
            None => UploadAttempt { value, attempts: 1 },
        }
    }

    /// The attempt failed; `jitter` is the delay that was picked in case the server prescribes none.
    pub fn failed_with(&mut self, error: &UploadAttemptError, jitter: u128) -> (r: RetryStep)
        ensures
            match r {
                RetryStep::Retry { delay } => {
                    &&& tries_again(old(self).next_kind(), *error)
                    &&& final(self).next_kind() == after_failure(old(self).next_kind())
                    &&& delay == (match (old(self).next_kind(), requested_delay(*error)) {
                        (UploadKind::Negotiated, _) => 0,
                        (UploadKind::Full { .. }, Some(requested)) => if requested
                            < UPLOAD_BACKOFF_CAP {
                            requested
                        } else {
                            UPLOAD_BACKOFF_CAP
                        },
                        (UploadKind::Full { .. }, None) => jitter,
                    })
                },
                RetryStep::Stop => {
                    &&& !tries_again(old(self).next_kind(), *error)
                    &&& final(self).next_kind() == old(self).next_kind()
                },
            },
    {
        let mut full: Option<UploadRetries> = None;
        std::mem::swap(&mut full, &mut self.full);
        match full {
            Some(mut retries) => {
                let step = retries.failed_with(error, jitter);
                self.full = Some(retries);
                step
            },
            None => {
                self.full = Some(UploadRetries::new());
                RetryStep::Retry { delay: 0 }
            },
        }
    }

    /// The delay to hand to `failed_with`, picked at random.
    pub fn pick_jitter(&self) -> (r: u128)
        ensures
            is_jitter(full_attempt_of(self.next_kind()) as nat, r),
            r <= backoff_cap(full_attempt_of(self.next_kind()) as nat),
    {
        match &self.full {
            Some(retries) => full_jitter_backoff(retries.attempt()),
            None => full_jitter_backoff(1),
        }
    }
}

/// What is sent, attempt by attempt, if the first attempt sends `kind` and the attempts fail with
/// `errors`, one after the other. The attempt behind the last of them does not fail.
pub open spec fn kinds_sent(kind: UploadKind, errors: Seq<UploadAttemptError>) -> Seq<UploadKind>
    decreases errors.len(),
{
    if errors.len() > 0 && tries_again(kind, errors[0]) {
        seq![kind] + kinds_sent(after_failure(kind), errors.drop_first())
    } else {
        seq![kind]
    }
}

proof fn lemma_full_attempts(attempt: usize, errors: Seq<UploadAttemptError>)
    requires
        1 <= attempt <= UPLOAD_MAX_ATTEMPTS,
    ensures
        ({
            let kinds = kinds_sent(UploadKind::Full { attempt }, errors);
            &&& attempt + kinds.len() <= UPLOAD_MAX_ATTEMPTS + 1
            &&& forall|i: int|
                0 <= i < kinds.len() ==> #[trigger] kinds[i] == (UploadKind::Full {
                    attempt: (attempt + i) as usize,
                })
        }),
    decreases errors.len(),
{
    let kind = UploadKind::Full { attempt };
    if errors.len() > 0 && tries_again(kind, errors[0]) {
        let next = (attempt + 1) as usize;
        lemma_full_attempts(next, errors.drop_first());
        let rest = kinds_sent(after_failure(kind), errors.drop_first());
        let kinds = kinds_sent(kind, errors);
        assert forall|i: int| 0 <= i < kinds.len() implies #[trigger] kinds[i] == (
        UploadKind::Full { attempt: (attempt + i) as usize }) by {
            if i > 0 {
                assert(kinds[i] == rest[i - 1]);
            }
        }
    }
}

/// Whatever goes wrong, the inline chunks are sent at most once, in the first attempt and only if
/// there is a manifest, and the whole NAR is sent at most `UPLOAD_MAX_ATTEMPTS` times. If there is a
/// manifest, an attempt with the whole NAR always follows a negotiated one that fails.
pub proof fn law_negotiated_upload_falls_back(negotiated: bool, errors: Seq<UploadAttemptError>)
    ensures
        ({
            let kinds = kinds_sent(first_kind(negotiated), errors);
            let full = if negotiated {
                kinds.drop_first()
            } else {
                kinds
            };
            &&& negotiated ==> kinds[0] is Negotiated
            &&& forall|i: int|
                0 <= i < full.len() ==> #[trigger] full[i] == (UploadKind::Full {
                    attempt: (i + 1) as usize,
                })
            &&& full.len() <= UPLOAD_MAX_ATTEMPTS
            &&& negotiated && errors.len() > 0 ==> full.len() > 0
        }),
{
    if negotiated {
        if errors.len() > 0 {
            lemma_full_attempts(1, errors.drop_first());
            let rest = kinds_sent(UploadKind::Full { attempt: 1 }, errors.drop_first());
            let kinds = kinds_sent(UploadKind::Negotiated, errors);
            assert(kinds.drop_first() =~= rest);
            assert(rest.len() > 0);
        }
    } else {
        lemma_full_attempts(1, errors);
    }
}

/// What the server said of an upload; if it did not say it, the path was uploaded.
pub fn upload_result(value: Option<UploadPathResult>) -> (r: UploadPathResult)
    ensures
        match value {
            Some(result) => r == result,
            None => r.kind == UploadPathResultKind::Uploaded && r.file_size is None,
        },
{
    match value {
        Some(result) => result,
        None => UploadPathResult { kind: UploadPathResultKind::Uploaded, file_size: None },
    }
}

/// A manifest is negotiated exactly if the server advertises chunking with a threshold above zero that
/// the NAR reaches.
pub proof fn law_large_nars_are_negotiated(
    chunking: Option<&ChunkingParameters>,
    nar_size: usize,
    larger: usize,
    r: bool,
    r_larger: bool,
)
    requires
        call_ensures(should_negotiate, (chunking, nar_size), r),
        call_ensures(should_negotiate, (chunking, larger), r_larger),
        nar_size <= larger,
    ensures
        chunking is None ==> !r,
        chunking matches Some(c) ==> (c.nar_size_threshold == 0 ==> !r) && (c.nar_size_threshold > 0
            ==> (r <==> nar_size >= c.nar_size_threshold)),
        r ==> r_larger,
{
}

/// The upload info says of a path what the store knows of it, for the given cache, with the manifest
/// if there is one. It cannot be made exactly if the path or one of its references is not UTF-8.
pub proof fn law_upload_info_describes_the_path(
    path_info: &ValidPathInfo,
    full_path: &Vec<u8>,
    cache: &CacheName,
    chunk_manifest: Option<Vec<ChunkManifestEntry>>,
    r: Result<UploadPathNarInfo, ClientError>,
    i: int,
)
    requires
        call_ensures(build_upload_info, (path_info, full_path, cache, chunk_manifest), r),
    ensures
        r matches Ok(info) ==> {
            &&& info.cache@ == cache@
            &&& info.store_path_hash@ == path_info.path.hash@
            &&& encode_utf8(info.store_path@) == full_path@
            &&& info.references@.len() == path_info.references@.len()
            &&& 0 <= i < info.references@.len() ==> encode_utf8(info.references@[i]@)
                == path_info.references@[i]@
            &&& info.sigs@ == path_info.sigs@
            &&& info.ca == path_info.ca
            &&& info.nar_hash@ == path_info.nar_hash@
            &&& path_info.nar_size <= usize::MAX ==> info.nar_size == path_info.nar_size
            &&& info.chunk_manifest == chunk_manifest
            &&& info.system is None && info.deriver is None
        },
        r is Err && valid_utf8(full_path@) ==> exists|k: int|
            0 <= k < path_info.references@.len() && !valid_utf8((#[trigger] path_info.references@[k])@),
        !valid_utf8(full_path@) ==> r is Err,
        0 <= i < path_info.references@.len() && !valid_utf8(path_info.references@[i]@) ==> r is Err,
{
    if let Ok(info) = r {
        if 0 <= i < info.references@.len() {
            assert(is_utf8_of(path_info.references@[i]@, info.references@[i]@));
        }
    } else if valid_utf8(full_path@) {
        let k = choose|k: int|
            0 <= k < path_info.references@.len() && !valid_utf8(#[trigger] path_info.references@[k]@);
        assert(!valid_utf8(path_info.references@[k]@));
    }
}

/// A negotiated upload announces the upload info, which always goes in front, and the inline chunks.
pub proof fn law_negotiated_upload_announces_the_inline_chunks(
    client: &ApiClient,
    upload_info_json: String,
    negotiated: &NegotiatedManifest,
    r: Result<UploadPathRequest, ClientError>,
)
    requires
        call_ensures(prepare_negotiated_upload, (client, upload_info_json, negotiated), r),
    ensures
        r matches Ok(request) ==> {
            &&& request.metadata matches UploadPathMetadata::Preamble(bytes)
            &&& bytes_of(bytes) == encode_utf8(upload_info_json@)
            &&& request.content_length == bytes_of(bytes).len() + negotiated.total_inline_bytes
            &&& joined_url(client@, "_api/v1/upload-path"@) == Ok::<Seq<char>, Seq<char>>(
                request.endpoint@,
            )
        },
        joined_url(client@, "_api/v1/upload-path"@) is Ok && encode_utf8(upload_info_json@).len()
            + negotiated.total_inline_bytes <= u64::MAX ==> r is Ok,
{
}

/// A full attempt is followed by another one exactly if fewer than three have been made and the failure
/// is one that may not come again: there was no answer, or one with the status 408, 429, 499, 500, 502,
/// 503 or 504. A negotiated attempt is followed by the first full one whatever the failure.
pub proof fn law_upload_goes_on_after_transient_failures(
    kind: UploadKind,
    error: UploadAttemptError,
)
    ensures
        kind is Negotiated ==> tries_again(kind, error) && after_failure(kind) == (
        UploadKind::Full { attempt: 1 }),
        kind matches UploadKind::Full { attempt } ==> {
            &&& tries_again(kind, error) <==> attempt < 3 && match error {
                UploadAttemptError::Transport(message) => true,
                UploadAttemptError::Http(
                    ApiError::Structured { error: body, status, retry_after },
                ) => seq![408u16, 429, 499, 500, 502, 503, 504].contains(status),
                UploadAttemptError::Http(ApiError::Unstructured { status, message, retry_after }) => {
                    seq![408u16, 429, 499, 500, 502, 503, 504].contains(status)
                },
            }
            &&& attempt < 3 ==> (after_failure(kind) matches UploadKind::Full { attempt: next }
                && next == attempt + 1)
        },
{
    let transient = seq![408u16, 429, 499, 500, 502, 503, 504];
    assert(transient[0] == 408 && transient[1] == 429 && transient[2] == 499 && transient[3] == 500);
    assert(transient[4] == 502 && transient[5] == 503 && transient[6] == 504);
}

/// An upload whose full attempts all get no answer is attempted three times, and once more before that
/// if there is a manifest.
pub proof fn law_upload_makes_all_its_attempts(negotiated: bool, errors: Seq<UploadAttemptError>)
    requires
        errors.len() >= 3,
        forall|i: int| 0 <= i < errors.len() ==> (#[trigger] errors[i]) is Transport,
    ensures
        kinds_sent(first_kind(negotiated), errors) == (if negotiated {
            seq![
                UploadKind::Negotiated,
                UploadKind::Full { attempt: 1 },
                UploadKind::Full { attempt: 2 },
                UploadKind::Full { attempt: 3 },
            ]
        } else {
            seq![
                UploadKind::Full { attempt: 1 },
                UploadKind::Full { attempt: 2 },
                UploadKind::Full { attempt: 3 },
            ]
        }),
{
    reveal_with_fuel(kinds_sent, 5);
    assert(errors[0] is Transport && errors[1] is Transport && errors[2] is Transport);
    let rest = errors.drop_first();
    assert(rest[0] == errors[1] && rest[1] == errors[2]);
    assert(rest.drop_first()[0] == errors[2]);
    if errors.len() > 3 {
        assert(errors[3] is Transport);
        assert(rest.drop_first().drop_first()[0] == errors[3]);
    }
    let sent = kinds_sent(first_kind(negotiated), errors);
    if negotiated {
        assert(sent =~= seq![
            UploadKind::Negotiated,
            UploadKind::Full { attempt: 1 },
            UploadKind::Full { attempt: 2 },
            UploadKind::Full { attempt: 3 },
        ]);
    } else {
        assert(sent =~= seq![
            UploadKind::Full { attempt: 1 },
            UploadKind::Full { attempt: 2 },
            UploadKind::Full { attempt: 3 },
        ]);
    }
}

/// What the server said of an upload is passed on; if it said nothing, the path counts as uploaded.
pub proof fn law_upload_result_is_passed_on(value: Option<UploadPathResult>, r: UploadPathResult)
    requires
        call_ensures(upload_result, (value,), r),
    ensures
        value matches Some(result) ==> r.kind == result.kind && r.file_size == result.file_size,
        value is None ==> r.kind is Uploaded && r.file_size is None,
{
}

/// An upload begins with what there is, and the attempt that succeeds is counted by its number; a
/// negotiated one is the first.
pub proof fn law_attempts_are_counted<T>(
    negotiated: bool,
    upload: PathUpload,
    kind: UploadKind,
    value: T,
    r: UploadAttempt<T>,
)
    requires
        call_ensures(PathUpload::kind, (&upload,), kind),
        call_ensures(PathUpload::succeeded::<T>, (&upload, value), r),
    ensures
        call_ensures(PathUpload::new, (negotiated,), upload) ==> if negotiated {
            kind is Negotiated
        } else {
            kind == (UploadKind::Full { attempt: 1 })
        },
        r.value == value,
        kind is Negotiated ==> r.attempts == 1,
        kind matches UploadKind::Full { attempt } ==> r.attempts == attempt && 1 <= attempt <= 3,
{
}

/// After a failed attempt, an upload goes on with a full attempt: at once and with the first one after
/// a negotiated attempt, else with the next one, after the delay that the server asked for, five
/// seconds at most, or the one that was picked. It stops after a failure that would come again, and
/// after the third full attempt.
pub proof fn law_failed_attempts_lead_to_full_ones(
    upload: &mut PathUpload,
    error: &UploadAttemptError,
    jitter: u128,
    r: RetryStep,
    status: u16,
    retry_after: Option<u128>,
)
    requires
        call_ensures(PathUpload::failed_with, (upload, error, jitter), r),
        match *error {
            UploadAttemptError::Http(ApiError::Structured { error: b, status: s, retry_after: d }) => {
                s == status && d == retry_after
            },
            UploadAttemptError::Http(
                ApiError::Unstructured { status: s, message: m, retry_after: d },
            ) => s == status && d == retry_after,
            UploadAttemptError::Transport(message) => status == 503 && retry_after is None,
        },
    ensures
        old(upload).next_kind() is Negotiated ==> final(upload).next_kind() == (UploadKind::Full {
            attempt: 1,
        }) && r == (RetryStep::Retry { delay: 0 }),
        old(upload).next_kind() matches UploadKind::Full { attempt } ==> {
            &&& r is Retry <==> attempt < 3 && seq![
                408u16,
                429,
                499,
                500,
                502,
                503,
                504,
            ].contains(status)
            &&& r is Stop ==> final(upload).next_kind() == old(upload).next_kind()
            &&& r matches RetryStep::Retry { delay } ==> {
                &&& final(upload).next_kind() matches UploadKind::Full { attempt: next } && next
                    == attempt + 1
                &&& retry_after is None ==> delay == jitter
                &&& retry_after matches Some(requested) ==> delay == if requested < 5_000_000_000 {
                    requested
                } else {
                    5_000_000_000
                }
            }
        },
{
    law_upload_goes_on_after_transient_failures(old(upload).next_kind(), *error);
    let transient = seq![408u16, 429, 499, 500, 502, 503, 504];
    assert(transient[5] == 503);
}

/// An upload that is not negotiated, or whose negotiation fails, is a full one.
pub proof fn law_failed_negotiations_lead_to_full_uploads<E>(
    negotiation: Result<Option<NegotiatedManifest>, E>,
    r: Option<NegotiatedManifest>,
    manifest: NegotiatedManifest,
)
    requires
        call_ensures(negotiated_or_full::<E>, (negotiation,), r),
    ensures
        r == Some(manifest) <==> negotiation == Ok::<Option<NegotiatedManifest>, E>(Some(manifest)),
        negotiation is Err ==> r is None,
{
}

/// The delay is picked for the attempt that is under way: up to half a second after the negotiated or the
/// first full attempt, one second after the second, and two seconds after the third.
pub proof fn law_delay_is_picked_for_the_attempt(upload: &PathUpload, kind: UploadKind, r: u128)
    requires
        call_ensures(PathUpload::kind, (upload,), kind),
        call_ensures(PathUpload::pick_jitter, (upload,), r),
    ensures
        kind is Negotiated ==> r <= 500_000_000,
        kind == (UploadKind::Full { attempt: 1 }) ==> r <= 500_000_000,
        kind == (UploadKind::Full { attempt: 2 }) ==> r <= 1_000_000_000,
        kind == (UploadKind::Full { attempt: 3 }) ==> r <= 2_000_000_000,
        kind is Negotiated || kind == (UploadKind::Full { attempt: 1 }) || kind == (
        UploadKind::Full { attempt: 2 }) || kind == (UploadKind::Full { attempt: 3 }),
{
    reveal_with_fuel(backoff_cap, 4);
}

} // verus!
