//! Upload requests and their retries.
use bytes::Bytes;
use rand::RngExt;
use vstd::prelude::*;
use vstd::utf8::encode_utf8;

use crate::api::upload_path::{ATTIC_NAR_INFO, ATTIC_NAR_INFO_PREAMBLE_SIZE};
use crate::byte_buf::{bytes_from_string, bytes_len, bytes_of};
use crate::client::api::ApiError;
use crate::client::error::ClientError;
use crate::encoding::{header_byte, header_value, valid_header_text};
use crate::text::{decimal, decimal_text};

verus! {

/// The size threshold to send the upload info as part of the PUT body: 4 KiB.
pub const NAR_INFO_PREAMBLE_THRESHOLD: usize = 4096;

/// How often an upload is attempted at most.
pub const UPLOAD_MAX_ATTEMPTS: usize = 3;

/// The longest delay before the first retry, in nanoseconds: 500 ms.
pub const UPLOAD_BACKOFF_BASE: u128 = 500_000_000;

/// The longest delay before any retry, in nanoseconds: 5 s.
pub const UPLOAD_BACKOFF_CAP: u128 = 5_000_000_000;

/// How the upload info is sent.
#[derive(Debug)]
pub enum UploadPathMetadata {
    /// As the value of a header.
    Header(Vec<u8>),

    /// At the beginning of the body.
    Preamble(Bytes),
}

/// A prepared upload, from which any number of attempts can be made.
#[derive(Debug)]
pub struct UploadPathRequest {
    /// Where to send it.
    pub endpoint: String,

    /// The upload info.
    pub metadata: UploadPathMetadata,

    /// The number of bytes in the body.
    pub content_length: u64,
}

/// Why an attempt to upload failed.
#[derive(Debug)]
pub enum UploadAttemptError {
    /// There was no response, or it could not be read.
    Transport(String),

    /// The server answered with an error.
    Http(ApiError),
}

/// An upload that succeeded.
#[derive(Debug)]
pub struct UploadAttempt<T> {
    pub value: T,

    /// Which attempt it was.
    pub attempts: usize,
}

/// Decides how to send the upload info: in the body if that is forced or the info is long, else in
/// a header.
pub fn upload_path_metadata(upload_info_json: String, force_preamble: bool) -> (r: Result<
    UploadPathMetadata,
    ClientError,
>)
    ensures
        ({
            let json = encode_utf8(upload_info_json@);
            let preamble = force_preamble || json.len() >= NAR_INFO_PREAMBLE_THRESHOLD;
            match r {
                Ok(UploadPathMetadata::Preamble(bytes)) => preamble && bytes_of(bytes) == json,
                Ok(UploadPathMetadata::Header(value)) => {
                    !preamble && valid_header_text(upload_info_json@) && value@ == json
                },
                Err(error) => {
                    &&& !preamble
                    &&& !valid_header_text(upload_info_json@)
                    &&& error is InvalidHeaderValue
                },
            }
        }),
{
    if force_preamble || upload_info_json.as_str().as_bytes().len()
        >= NAR_INFO_PREAMBLE_THRESHOLD {
        Ok(UploadPathMetadata::Preamble(bytes_from_string(upload_info_json)))
    } else {
        match header_value(upload_info_json.as_str()) {
            Some(value) => Ok(UploadPathMetadata::Header(value)),
            None => Err(ClientError::InvalidHeaderValue),
        }
    }
}

/// The number of bytes in front of the NAR data.
pub open spec fn preamble_length(metadata: UploadPathMetadata) -> nat {
    match metadata {
        UploadPathMetadata::Header(value) => 0,
        UploadPathMetadata::Preamble(bytes) => bytes_of(bytes).len(),
    }
}

/// The number of bytes in the body: the preamble, if there is one, and the NAR data.
pub fn upload_content_length(metadata: &UploadPathMetadata, nar_size: usize) -> (r: Result<
    u64,
    ClientError,
>)
    ensures
        match r {
            Ok(length) => length == preamble_length(*metadata) + nar_size,
            Err(error) => {
                error is ContentLengthOverflow && preamble_length(*metadata) + nar_size > u64::MAX
            },
        },
{
    match metadata {
        UploadPathMetadata::Header(value) => Ok(nar_size as u64),
        UploadPathMetadata::Preamble(preamble) => {
            let preamble_len: u64 = bytes_len(preamble) as u64;
            match preamble_len.checked_add(nar_size as u64) {
                Some(length) => Ok(length),
                None => Err(ClientError::ContentLengthOverflow),
            }
        },
    }
}

impl UploadPathRequest {
    /// The headers of a request: `Content-Length`, and the upload info or the size of the preamble.
    pub fn headers(&self) -> (r: Vec<(String, Vec<u8>)>)
        ensures
            r@.len() == 2,
            r@[0].0@ == "content-length"@,
            r@[0].1@ == encode_utf8(decimal(self.content_length as nat)),
            match self.metadata {
                UploadPathMetadata::Header(value) => {
                    r@[1].0@ == ATTIC_NAR_INFO@ && r@[1].1@ == value@
                },
                UploadPathMetadata::Preamble(bytes) => {
                    &&& r@[1].0@ == ATTIC_NAR_INFO_PREAMBLE_SIZE@
                    &&& r@[1].1@ == encode_utf8(decimal(bytes_of(bytes).len()))
                },
            },
    {
        let mut headers: Vec<(String, Vec<u8>)> = Vec::new();
        headers.push(
            (
                "content-length".to_owned(),
                decimal_text(self.content_length).as_str().as_bytes_vec(),
            ),
        );
        match &self.metadata {
            UploadPathMetadata::Header(value) => {
                let copy = value.clone();
                proof {
                    assert(copy@ =~= value@);
                }
                headers.push((ATTIC_NAR_INFO.to_owned(), copy));
            },
            UploadPathMetadata::Preamble(preamble) => {
                headers.push(
                    (
                        ATTIC_NAR_INFO_PREAMBLE_SIZE.to_owned(),
                        decimal_text(bytes_len(preamble) as u64).as_str().as_bytes_vec(),
                    ),
                );
            },
        }
        headers
    }
}

/// Statuses that a later attempt may not get again.
pub open spec fn is_transient(status: u16) -> bool {
    ||| status == 408
    ||| status == 429
    ||| status == 499
    ||| status == 500
    ||| status == 502
    ||| status == 503
    ||| status == 504
}

/// Whether an upload that was answered with `status` is worth another attempt.
pub fn retryable_upload_status(status: u16) -> (r: bool)
    ensures
        r == is_transient(status),
{
    status == 408 || status == 429 || status == 499 || status == 500 || status == 502 || status
        == 503 || status == 504
}

/// The longest delay after the given number of failed attempts: it doubles with each, up to a cap.
pub open spec fn backoff_cap(failed_attempt: nat) -> nat
    decreases failed_attempt,
{
    if failed_attempt <= 1 {
        UPLOAD_BACKOFF_BASE as nat
    } else if 2 * backoff_cap((failed_attempt - 1) as nat) < UPLOAD_BACKOFF_CAP {
        2 * backoff_cap((failed_attempt - 1) as nat)
    } else {
        UPLOAD_BACKOFF_CAP as nat
    }
}

proof fn lemma_backoff_cap(failed_attempt: nat)
    ensures
        failed_attempt <= 1 ==> backoff_cap(failed_attempt) == UPLOAD_BACKOFF_BASE,
        failed_attempt == 2 ==> backoff_cap(failed_attempt) == 1_000_000_000,
        failed_attempt == 3 ==> backoff_cap(failed_attempt) == 2_000_000_000,
        failed_attempt == 4 ==> backoff_cap(failed_attempt) == 4_000_000_000,
        failed_attempt >= 5 ==> backoff_cap(failed_attempt) == UPLOAD_BACKOFF_CAP,
    decreases failed_attempt,
{
    if failed_attempt >= 2 {
        lemma_backoff_cap((failed_attempt - 1) as nat);
    }
}

fn backoff_limit(failed_attempt: usize) -> (r: u128)
    ensures
        r == backoff_cap(failed_attempt as nat),
{
    let mut cap: u128 = UPLOAD_BACKOFF_BASE;
    let mut attempt: usize = 1;
    while attempt < failed_attempt && cap < UPLOAD_BACKOFF_CAP
        invariant
            1 <= attempt,
            attempt == 1 || attempt <= failed_attempt,
            cap == backoff_cap(attempt as nat),
            cap <= UPLOAD_BACKOFF_CAP,
        decreases failed_attempt - attempt,
    {
        cap = if 2 * cap < UPLOAD_BACKOFF_CAP {
            2 * cap
        } else {
            UPLOAD_BACKOFF_CAP
        };
        attempt = attempt + 1;
    }
    proof {
        lemma_backoff_cap(attempt as nat);
        lemma_backoff_cap(failed_attempt as nat);
    }
    cap
}

/// A delay that `random` picks, given the longest one allowed; it is cut down to that.
pub fn full_jitter_backoff_with<F: FnOnce(u128) -> u128>(failed_attempt: usize, random: F) -> (r:
    u128)
    requires
        random.requires((backoff_cap(failed_attempt as nat) as u128,)),
    ensures
        r <= backoff_cap(failed_attempt as nat),
        exists|picked: u128| #[trigger]
            random.ensures((backoff_cap(failed_attempt as nat) as u128,), picked) && r == (
            if picked < backoff_cap(failed_attempt as nat) {
                picked
            } else {
                backoff_cap(failed_attempt as nat) as u128
            }),
{
    let cap: u128 = backoff_limit(failed_attempt);
    let picked: u128 = random(cap);
    if picked < cap {
        picked
    } else {
        cap
    }
}

/// `Rng::random_range`: a number from zero to `max`, both included, at random.
#[verifier::external_body]
fn random_up_to(max: u64) -> (r: u64)
    ensures
        r <= max,
{
    rand::rng().random_range(0..=max)
}

/// `picked` is a number that can come of asking for one from zero to `max` at random.
pub closed spec fn is_random_up_to(max: u64, picked: u64) -> bool {
    call_ensures(random_up_to, (max,), picked)
}

/// The delay is a random number of milliseconds, up to the longest delay allowed.
pub open spec fn is_jitter(failed_attempt: nat, delay: u128) -> bool {
    exists|millis: u64| #[trigger]
        is_random_up_to((backoff_cap(failed_attempt) / 1_000_000) as u64, millis) && delay == millis
            * 1_000_000
}

/// A delay at random, in whole milliseconds.
pub fn full_jitter_backoff(failed_attempt: usize) -> (r: u128)
    ensures
        is_jitter(failed_attempt as nat, r),
        r <= backoff_cap(failed_attempt as nat),
        r % 1_000_000 == 0,
{
    proof {
        lemma_backoff_cap(failed_attempt as nat);
    }
    let cap: u128 = backoff_limit(failed_attempt);
    let millis: u64 = random_up_to((cap / 1_000_000) as u64);
    proof {
        assert(is_random_up_to((backoff_cap(failed_attempt as nat) / 1_000_000) as u64, millis));
    }
    let random = |limit: u128| -> (picked: u128)
        ensures
            picked == millis as u128 * 1_000_000,
        {
            millis as u128 * 1_000_000
        };
    full_jitter_backoff_with(failed_attempt, random)
}

/// The error may not come again.
pub open spec fn is_retryable(error: UploadAttemptError) -> bool {
    match error {
        UploadAttemptError::Transport(message) => true,
        UploadAttemptError::Http(error) => is_transient(error.spec_status()),
    }
}

/// The delay that the server asked for, if any.
pub open spec fn requested_delay(error: UploadAttemptError) -> Option<u128> {
    match error {
        UploadAttemptError::Transport(message) => None,
        UploadAttemptError::Http(error) => error.spec_retry_after(),
    }
}

/// How long to wait after `error`, when `jitter` was picked for a delay that the server does not
/// prescribe. `None` if there is nothing to wait for.
pub fn retry_delay_with(error: &UploadAttemptError, jitter: u128) -> (r: Option<u128>)
    ensures
        r == (if !is_retryable(*error) {
            None
        } else {
            match requested_delay(*error) {
                Some(delay) => Some(
                    if delay < UPLOAD_BACKOFF_CAP {
                        delay
                    } else {
                        UPLOAD_BACKOFF_CAP
                    },
                ),
                None => Some(jitter),
            }
        }),
{
    match error {
        UploadAttemptError::Transport(message) => Some(jitter),
        UploadAttemptError::Http(error) => {
            if retryable_upload_status(error.status()) {
                match error.retry_after() {
                    Some(delay) => if delay < UPLOAD_BACKOFF_CAP {
                        Some(delay)
                    } else {
                        Some(UPLOAD_BACKOFF_CAP)
                    },
                    None => Some(jitter),
                }
            } else {
                None
            }
        },
    }
}

/// How long to wait after `error` in the given attempt, in nanoseconds. `None` if another attempt
/// would fail too.
pub fn retry_delay(error: &UploadAttemptError, failed_attempt: usize) -> (r: Option<u128>)
    ensures
        r is Some <==> is_retryable(*error),
        r matches Some(delay) ==> match requested_delay(*error) {
            Some(requested) => delay == (if requested < UPLOAD_BACKOFF_CAP {
                requested
            } else {
                UPLOAD_BACKOFF_CAP
            }),
            None => is_jitter(failed_attempt as nat, delay) && delay <= backoff_cap(
                failed_attempt as nat,
            ),
        },
{
    retry_delay_with(error, full_jitter_backoff(failed_attempt))
}

/// What to do after a failed attempt.
#[derive(Clone, Copy, Debug)]
pub enum RetryStep {
    /// Wait for the given time, in nanoseconds, and try again.
    Retry {
        delay: u128,
    },

    /// Report the failure.
    Stop,
}

/// The course of an upload. Each attempt needs a fresh request body.
#[derive(Debug)]
pub struct UploadRetries {
    attempt: usize,
}

impl UploadRetries {
    #[verifier::type_invariant]
    spec fn well_formed(self) -> bool {
        1 <= self.attempt <= UPLOAD_MAX_ATTEMPTS
    }

    /// The number of the attempt that is to be made or is under way.
    pub closed spec fn attempt_number(&self) -> usize {
        self.attempt
    }

    /// Before the first attempt.
    pub fn new() -> (r: UploadRetries)
        ensures
            r.attempt_number() == 1,
    {
        UploadRetries { attempt: 1 }
    }

    /// The number of the attempt that is to be made or is under way, which is never more than
    /// `UPLOAD_MAX_ATTEMPTS`.
    pub fn attempt(&self) -> (r: usize)
        ensures
            r == self.attempt_number(),
            1 <= r <= UPLOAD_MAX_ATTEMPTS,
    {
        proof {
            use_type_invariant(self);
        }
        self.attempt
    }

    /// The attempt succeeded.
    pub fn succeeded<T>(&self, value: T) -> (r: UploadAttempt<T>)
        ensures
            r.value == value,
            r.attempts == self.attempt_number(),
    {
        UploadAttempt { value, attempts: self.attempt }
    }

    /// The attempt failed; `jitter` is the delay that was picked in case the server prescribes none.
    pub fn failed_with(&mut self, error: &UploadAttemptError, jitter: u128) -> (r: RetryStep)
        ensures
            r is Retry <==> is_retryable(*error) && old(self).attempt_number() < UPLOAD_MAX_ATTEMPTS,
            r is Retry ==> final(self).attempt_number() == old(self).attempt_number() + 1,
            r is Stop ==> final(self).attempt_number() == old(self).attempt_number(),
            r matches RetryStep::Retry { delay } ==> match requested_delay(*error) {
                Some(requested) => delay == (if requested < UPLOAD_BACKOFF_CAP {
                    requested
                } else {
                    UPLOAD_BACKOFF_CAP
                }),
                None => delay == jitter,
            },
    {
        proof {
            use_type_invariant(&*self);
        }
        match retry_delay_with(error, jitter) {
            Some(delay) => {
                if self.attempt == UPLOAD_MAX_ATTEMPTS {
                    RetryStep::Stop
                } else {
                    self.attempt = self.attempt + 1;
                    RetryStep::Retry { delay }
                }
            },
            None => RetryStep::Stop,
        }
    }

    /// The attempt failed.
    pub fn failed(&mut self, error: &UploadAttemptError) -> (r: RetryStep)
        ensures
            r is Retry <==> is_retryable(*error) && old(self).attempt_number() < UPLOAD_MAX_ATTEMPTS,
            r is Retry ==> final(self).attempt_number() == old(self).attempt_number() + 1,
            r is Stop ==> final(self).attempt_number() == old(self).attempt_number(),
            r matches RetryStep::Retry { delay } ==> match requested_delay(*error) {
                Some(requested) => delay == (if requested < UPLOAD_BACKOFF_CAP {
                    requested
                } else {
                    UPLOAD_BACKOFF_CAP
                }),
                None => is_jitter(old(self).attempt_number() as nat, delay) && delay
                    <= backoff_cap(old(self).attempt_number() as nat),
            },
    {
        let jitter: u128 = full_jitter_backoff(self.attempt);
        self.failed_with(error, jitter)
    }
}

/// No delay is longer than five seconds, and the longest delay never gets shorter from one attempt
/// to the next.
pub proof fn law_backoff_is_capped_and_grows(failed_attempt: nat)
    ensures
        UPLOAD_BACKOFF_BASE <= backoff_cap(failed_attempt) <= UPLOAD_BACKOFF_CAP,
        backoff_cap(failed_attempt) <= backoff_cap(failed_attempt + 1),
{
    lemma_backoff_cap(failed_attempt);
    lemma_backoff_cap(failed_attempt + 1);
}

/// The status and the requested delay of an error that the server answered with, whether or not its
/// body was JSON.
proof fn lemma_response(error: ApiError)
    ensures
        match error {
            ApiError::Structured { error: body, status, retry_after } => {
                error.spec_status() == status && error.spec_retry_after() == retry_after
            },
            ApiError::Unstructured { status, message, retry_after } => {
                error.spec_status() == status && error.spec_retry_after() == retry_after
            },
        },
{
}

/// Whether an attempt that was answered is made again depends on the status of the answer alone, not
/// on whether its body was JSON or what was in it: it is if the status is 408, 429, 499, 500, 502, 503
/// or 504. It waits for as long as the server asked for, but five seconds at most, or else for the
/// delay that was picked.
pub proof fn law_answered_attempts_are_retried_by_their_status(
    error: &UploadAttemptError,
    status: u16,
    retry_after: Option<u128>,
    jitter: u128,
    r: Option<u128>,
)
    requires
        call_ensures(retry_delay_with, (error, jitter), r),
        match *error {
            UploadAttemptError::Http(ApiError::Structured { error: b, status: s, retry_after: d }) => {
                s == status && d == retry_after
            },
            UploadAttemptError::Http(
                ApiError::Unstructured { status: s, message: m, retry_after: d },
            ) => s == status && d == retry_after,
            UploadAttemptError::Transport(message) => false,
        },
    ensures
        r is Some <==> seq![408u16, 429, 499, 500, 502, 503, 504].contains(status),
        r matches Some(delay) ==> match retry_after {
            Some(requested) => delay <= requested && delay <= 5_000_000_000 && (delay == requested
                || delay == 5_000_000_000),
            None => delay == jitter,
        },
{
    let transient = seq![408u16, 429, 499, 500, 502, 503, 504];
    assert(transient[0] == 408 && transient[1] == 429 && transient[2] == 499 && transient[3] == 500);
    assert(transient[4] == 502 && transient[5] == 503 && transient[6] == 504);
    if let UploadAttemptError::Http(answer) = *error {
        lemma_response(answer);
    }
}

/// An attempt that got no answer is always made again.
pub proof fn law_unanswered_attempts_are_retried(
    error: &UploadAttemptError,
    jitter: u128,
    r: Option<u128>,
)
    requires
        call_ensures(retry_delay_with, (error, jitter), r),
        *error is Transport,
    ensures
        r == Some(jitter),
{
}

/// Two answers with the same status are retried alike, after delays that differ at most because the
/// server asked for different ones. Which attempt it is decides about the delay alone.
pub proof fn law_same_status_is_retried_alike(
    first: &UploadAttemptError,
    second: &UploadAttemptError,
    first_attempt: usize,
    second_attempt: usize,
    r1: Option<u128>,
    r2: Option<u128>,
    error1: ApiError,
    error2: ApiError,
    status1: u16,
    status2: u16,
)
    requires
        call_ensures(retry_delay, (first, first_attempt), r1),
        call_ensures(retry_delay, (second, second_attempt), r2),
        *first == UploadAttemptError::Http(error1),
        *second == UploadAttemptError::Http(error2),
        call_ensures(ApiError::status, (&error1,), status1),
        call_ensures(ApiError::status, (&error2,), status2),
        status1 == status2,
    ensures
        r1 is Some <==> r2 is Some,
        r1 is Some <==> seq![408u16, 429, 499, 500, 502, 503, 504].contains(status1),
{
    let transient = seq![408u16, 429, 499, 500, 502, 503, 504];
    assert(transient[0] == 408 && transient[1] == 429 && transient[2] == 499 && transient[3] == 500);
    assert(transient[4] == 502 && transient[5] == 503 && transient[6] == 504);
}

/// The delays between attempts: at most half a second after the first one, twice as much after each
/// further one, and never more than five seconds, always in whole milliseconds.
pub proof fn law_delays_double_up_to_five_seconds(failed_attempt: usize, r: u128)
    requires
        call_ensures(full_jitter_backoff, (failed_attempt,), r),
    ensures
        r % 1_000_000 == 0,
        r <= 5_000_000_000,
        failed_attempt <= 1 ==> r <= 500_000_000,
        failed_attempt == 2 ==> r <= 1_000_000_000,
        failed_attempt == 3 ==> r <= 2_000_000_000,
        failed_attempt == 4 ==> r <= 4_000_000_000,
{
    lemma_backoff_cap(failed_attempt as nat);
}

/// A delay that is picked within the limit is kept as it is, and the limit is half a second after the
/// first attempt, doubles with each further one, and ends at five seconds.
pub proof fn law_picked_delays_are_kept_within_the_limit<F: FnOnce(u128) -> u128>(
    failed_attempt: usize,
    random: F,
    r: u128,
    limit: u128,
)
    requires
        call_ensures(full_jitter_backoff_with::<F>, (failed_attempt, random), r),
        failed_attempt <= 1 ==> limit == 500_000_000,
        failed_attempt == 2 ==> limit == 1_000_000_000,
        failed_attempt == 3 ==> limit == 2_000_000_000,
        failed_attempt == 4 ==> limit == 4_000_000_000,
        failed_attempt >= 5 ==> limit == 5_000_000_000,
    ensures
        exists|picked: u128| #[trigger]
            random.ensures((limit,), picked) && (picked <= limit ==> r == picked) && (picked > limit
                ==> r == limit),
{
    lemma_backoff_cap(failed_attempt as nat);
}

/// The upload info goes into the body if that is asked for or it has 4096 bytes or more, else into a
/// header, and either way it is sent as it is.
pub proof fn law_upload_info_is_sent_as_it_is(
    upload_info_json: String,
    force_preamble: bool,
    r: Result<UploadPathMetadata, ClientError>,
)
    requires
        call_ensures(upload_path_metadata, (upload_info_json, force_preamble), r),
    ensures
        ({
            let json = encode_utf8(upload_info_json@);
            &&& r matches Ok(UploadPathMetadata::Preamble(bytes)) ==> bytes_of(bytes) == json && (
            force_preamble || json.len() >= 4096)
            &&& r matches Ok(UploadPathMetadata::Header(value)) ==> value@ == json
                && !force_preamble && json.len() < 4096
            &&& force_preamble || json.len() >= 4096 ==> r is Ok
            &&& r is Err <==> !force_preamble && json.len() < 4096 && exists|i: int|
                0 <= i < json.len() && ((#[trigger] json[i]) < 32 && json[i] != 9 || json[i] == 127)
        }),
{
    let json = encode_utf8(upload_info_json@);
    if valid_header_text(upload_info_json@) {
        assert forall|i: int| 0 <= i < json.len() implies !((#[trigger] json[i]) < 32 && json[i] != 9
            || json[i] == 127) by {
            assert(header_byte(encode_utf8(upload_info_json@)[i]));
        }
    } else {
        let i = choose|i: int|
            0 <= i < encode_utf8(upload_info_json@).len() && !header_byte(
                #[trigger] encode_utf8(upload_info_json@)[i],
            );
        assert(!header_byte(json[i]));
    }
}

/// The announced length of the body is that of the NAR data, and of the upload info if that is in the
/// body too.
pub proof fn law_announced_length_covers_the_preamble(
    metadata: &UploadPathMetadata,
    nar_size: usize,
    r: Result<u64, ClientError>,
)
    requires
        call_ensures(upload_content_length, (metadata, nar_size), r),
    ensures
        *metadata is Header ==> r == Ok::<u64, ClientError>(nar_size as u64),
        *metadata matches UploadPathMetadata::Preamble(bytes) ==> match r {
            Ok(length) => length == nar_size + bytes_of(bytes).len(),
            Err(error) => nar_size + bytes_of(bytes).len() > u64::MAX,
        },
{
}

/// A delay is picked at random from the whole range up to the limit, which is half a second after the
/// first attempt, doubles with each further one, and ends at five seconds.
pub proof fn law_delays_are_picked_from_the_whole_range(failed_attempt: usize, r: u128, limit: u64)
    requires
        call_ensures(full_jitter_backoff, (failed_attempt,), r),
        failed_attempt <= 1 ==> limit == 500,
        failed_attempt == 2 ==> limit == 1000,
        failed_attempt == 3 ==> limit == 2000,
        failed_attempt == 4 ==> limit == 4000,
        failed_attempt >= 5 ==> limit == 5000,
    ensures
        exists|millis: u64| #[trigger]
            is_random_up_to(limit, millis) && r == millis * 1_000_000,
{
    reveal_with_fuel(backoff_cap, 6);
    if failed_attempt >= 5 {
        lemma_backoff_ends(failed_attempt as nat);
    }
    assert((backoff_cap(failed_attempt as nat) / 1_000_000) as u64 == limit);
}

proof fn lemma_backoff_ends(failed_attempt: nat)
    requires
        failed_attempt >= 5,
    ensures
        backoff_cap(failed_attempt) == 5_000_000_000,
    decreases failed_attempt,
{
    reveal_with_fuel(backoff_cap, 6);
    if failed_attempt > 5 {
        lemma_backoff_ends((failed_attempt - 1) as nat);
    }
}

/// There are three attempts at most. A failure that is waited for leads to the next attempt, after that
/// wait; any other is reported, and so is that of the third attempt.
pub proof fn law_third_failure_is_reported(
    retries: &mut UploadRetries,
    error: &UploadAttemptError,
    jitter: u128,
    before: usize,
    wait: Option<u128>,
    r: RetryStep,
    after: &UploadRetries,
    next: usize,
)
    requires
        call_ensures(UploadRetries::attempt, (&*old(retries),), before),
        call_ensures(retry_delay_with, (error, jitter), wait),
        call_ensures(UploadRetries::failed_with, (retries, error, jitter), r),
        *after == *final(retries),
        call_ensures(UploadRetries::attempt, (after,), next),
    ensures
        r is Retry <==> wait is Some && before < 3,
        r matches RetryStep::Retry { delay } ==> wait == Some(delay) && next == before + 1,
        r is Stop ==> next == before,
        next <= 3,
{
}

/// An upload whose delays are picked at random goes the same way, with delays of five seconds at most.
pub proof fn law_failures_are_retried_with_random_delays(
    retries: &mut UploadRetries,
    error: &UploadAttemptError,
    before: usize,
    jitter: u128,
    wait: Option<u128>,
    r: RetryStep,
    after: &UploadRetries,
    next: usize,
)
    requires
        call_ensures(UploadRetries::attempt, (&*old(retries),), before),
        call_ensures(retry_delay_with, (error, jitter), wait),
        call_ensures(UploadRetries::failed, (retries, error), r),
        *after == *final(retries),
        call_ensures(UploadRetries::attempt, (after,), next),
    ensures
        r is Retry <==> wait is Some && before < 3,
        r is Retry ==> next == before + 1,
        r is Stop ==> next == before,
        r matches RetryStep::Retry { delay } ==> delay <= 5_000_000_000,
{
    lemma_backoff_cap(before as nat);
}

/// The headers tell the length of the body, and the upload info or how long the preamble is that holds
/// it.
pub proof fn law_headers_tell_the_lengths(
    request: &UploadPathRequest,
    r: Vec<(String, Vec<u8>)>,
    length: String,
    preamble_size: u64,
    preamble_text: String,
)
    requires
        call_ensures(UploadPathRequest::headers, (request,), r),
        call_ensures(decimal_text, (request.content_length,), length),
        call_ensures(decimal_text, (preamble_size,), preamble_text),
    ensures
        r@.len() == 2,
        r@[0].0@ == "content-length"@,
        r@[0].1@ == encode_utf8(length@),
        request.metadata matches UploadPathMetadata::Header(value) ==> r@[1].0@
            == "X-Attic-Nar-Info"@ && r@[1].1@ == value@,
        request.metadata matches UploadPathMetadata::Preamble(bytes) ==> r@[1].0@
            == "X-Attic-Nar-Info-Preamble-Size"@ && (preamble_size == bytes_of(bytes).len()
            ==> r@[1].1@ == encode_utf8(preamble_text@)),
{
}

} // verus!
