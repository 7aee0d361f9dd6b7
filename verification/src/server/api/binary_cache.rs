//! The Nix Binary Cache API.
use vstd::prelude::*;

use crate::encoding::{lemma_visible_ascii_is_header_text, valid_header_text};
use crate::server::error::ErrorKind;
use crate::server::state::RequestState;
use crate::text::{concat3, decimal, decimal_text, digit_char, split_once, text_eq};

verus! {

/// Buffer size for streaming NARs: 64 KiB.
pub const STREAM_BUFFER_SIZE: usize = 65536;

/// How often the time of the last access is allowed to be bumped for a given object, in
/// nanoseconds: once an hour.
///
/// The timestamp only feeds retention-based garbage collection, which compares it against cutoffs
/// measured in hours to days. Bumps within this window are therefore skipped.
pub const LAST_ACCESSED_DEBOUNCE: i128 = 3_600_000_000_000;

/// For how many seconds information on a cache or a store path may be cached.
pub const INFO_MAX_AGE: u64 = 300;

/// For how many seconds a redirect to a NAR may be cached.
pub const REDIRECT_MAX_AGE: u64 = 60;

/// For how many seconds a NAR may be cached.
pub const NAR_MAX_AGE: u64 = 31_536_000;

/// The value of a `Cache-Control` header.
pub open spec fn cache_control_text(is_public: bool, max_age_secs: u64, immutable: bool) -> Seq<
    char,
> {
    (if is_public {
        "public"@
    } else {
        "private"@
    }) + ", max-age="@ + decimal(max_age_secs as nat) + (if immutable {
        ", immutable"@
    } else {
        ""@
    })
}

proof fn lemma_decimal_is_visible(n: nat)
    ensures
        forall|i: int| 0 <= i < decimal(n).len() ==> ' ' <= #[trigger] decimal(n)[i] <= '~',
    decreases n,
{
    assert(forall|d: int| 0 <= d < 10 ==> ' ' <= #[trigger] digit_char(d) <= '~');
    if n >= 10 {
        lemma_decimal_is_visible(n / 10);
    }
    assert forall|i: int| 0 <= i < decimal(n).len() implies ' ' <= #[trigger] decimal(n)[i]
        <= '~' by {
        if n < 10 {
            assert(decimal(n)[i] == digit_char(n as int));
        } else if i < decimal(n / 10).len() {
            assert(decimal(n)[i] == decimal(n / 10)[i]);
        } else {
            assert(decimal(n)[i] == digit_char((n % 10) as int));
        }
    }
}

/// Builds a `Cache-Control` header value.
///
/// `is_public` controls the cacheability directive: shared HTTP caches may store responses for
/// public Attic caches, while `private` responses must only be cached by the requesting client since
/// they require an auth token to fetch. `immutable` should be set for content-addressed payloads
/// (NARs) that never change once fetched.
pub fn cache_control(is_public: bool, max_age_secs: u64, immutable: bool) -> (r: String)
    ensures
        r@ == cache_control_text(is_public, max_age_secs, immutable),
        valid_header_text(r@),
{
    let visibility = if is_public {
        "public"
    } else {
        "private"
    };
    let mut value = concat3(visibility, ", max-age=", decimal_text(max_age_secs).as_str());
    if immutable {
        value.append(", immutable");
    }
    proof {
        reveal_strlit("public");
        reveal_strlit("private");
        reveal_strlit(", max-age=");
        reveal_strlit(", immutable");
        reveal_strlit("");
        lemma_decimal_is_visible(max_age_secs as nat);
        assert(value@ =~= cache_control_text(is_public, max_age_secs, immutable));
        assert forall|i: int| 0 <= i < value@.len() implies ' ' <= #[trigger] value@[i] <= '~' by {
            let a = visibility@.len() as int;
            let b = a + 10;
            let c = b + decimal(max_age_secs as nat).len();
            if i < a {
                assert(value@[i] == visibility@[i]);
            } else if i < b {
                assert(value@[i] == ", max-age="@[i - a]);
            } else if i < c {
                assert(value@[i] == decimal(max_age_secs as nat)[i - b]);
            } else {
                assert(value@[i] == ", immutable"@[i - c]);
            }
        }
        lemma_visible_ascii_is_header_text(value@);
    }
    value
}

/// Shared caches are told to store a response only if the Attic cache is public.
pub proof fn law_only_public_caches_are_shared(is_public: bool, max_age_secs: u64, immutable: bool)
    ensures
        "public"@.is_prefix_of(cache_control_text(is_public, max_age_secs, immutable))
            <==> is_public,
{
    reveal_strlit("public");
    reveal_strlit("private");
    let text = cache_control_text(is_public, max_age_secs, immutable);
    if is_public {
        assert("public"@.is_prefix_of(text)) by {
            assert("public"@ =~= text.subrange(0, "public"@.len() as int));
        }
    } else {
        assert(text[1] == "private"@[1]);
        assert("private"@[1] == 'r');
        assert("public"@[1] == 'u');
        if "public"@.is_prefix_of(text) {
            assert(text.subrange(0, "public"@.len() as int)[1] == text[1]);
        }
    }
}

/// The time of the last access can be compared with the current time.
pub open spec fn comparable_times(last_accessed_at: Option<i128>, now: i128) -> bool {
    last_accessed_at matches Some(last) ==> i128::MIN <= now - last <= i128::MAX
}

/// The object has never been accessed, or the last recorded access is older than
/// `LAST_ACCESSED_DEBOUNCE`.
pub open spec fn due_for_bump(last_accessed_at: Option<i128>, now: i128) -> bool {
    match last_accessed_at {
        Some(last) => now - last > LAST_ACCESSED_DEBOUNCE,
        None => true,
    }
}

/// Returns whether an object's time of last access is due for a bump. Times are in nanoseconds since
/// the Unix epoch.
///
/// A bump is needed when the object has never been accessed, or when the last recorded access is
/// older than `LAST_ACCESSED_DEBOUNCE`.
pub fn should_bump_last_accessed(last_accessed_at: Option<i128>, now: i128) -> (r: bool)
    requires
        comparable_times(last_accessed_at, now),
    ensures
        r == due_for_bump(last_accessed_at, now),
{
    match last_accessed_at {
        Some(last_accessed_at) => now - last_accessed_at > LAST_ACCESSED_DEBOUNCE,
        None => true,
    }
}

/// `path` is `name`, a dot and `suffix`, and the dot is the first one.
pub open spec fn is_named(path: Seq<char>, name: Seq<char>, suffix: Seq<char>) -> bool {
    path == name + seq!['.'] + suffix && !name.contains('.')
}

/// `path` is not any name, a dot and `suffix`, with the dot as the first one.
pub open spec fn is_not_named(path: Seq<char>, suffix: Seq<char>) -> bool {
    forall|name: Seq<char>| !#[trigger] is_named(path, name, suffix)
}

/// What stands before the first dot, if what stands behind it is `suffix`.
fn name_before(path: &str, suffix: &str) -> (r: Result<String, ErrorKind>)
    ensures
        match r {
            Ok(name) => is_named(path@, name@, suffix@),
            Err(error) => error is NotFound && is_not_named(path@, suffix@),
        },
{
    match split_once(path, '.') {
        Some((name, rest)) => {
            if text_eq(rest.as_str(), suffix) {
                Ok(name)
            } else {
                proof {
                    assert forall|other: Seq<char>| !#[trigger] is_named(path@, other, suffix@) by {
                        if is_named(path@, other, suffix@) {
                            let n = name@.len() as int;
                            let m = other.len() as int;
                            if n < m {
                                assert(other[n] == path@[n]);
                                assert(other.contains('.'));
                            } else if m < n {
                                assert(name@[m] == path@[m]);
                                assert(name@.contains('.'));
                            } else {
                                assert(rest@ =~= path@.subrange(n + 1, path@.len() as int));
                                assert(suffix@ =~= path@.subrange(n + 1, path@.len() as int));
                            }
                        }
                    }
                }
                Err(ErrorKind::NotFound)
            }
        },
        None => {
            proof {
                assert forall|other: Seq<char>| !#[trigger] is_named(path@, other, suffix@) by {
                    if is_named(path@, other, suffix@) {
                        assert(path@[other.len() as int] == '.');
                        assert(path@.contains('.'));
                    }
                }
            }
            Err(ErrorKind::NotFound)
        },
    }
}

/// The store path hash that `{storePathHash}.narinfo` asks for. Other paths are not found.
pub fn narinfo_path(path: &str) -> (r: Result<String, ErrorKind>)
    ensures
        match r {
            Ok(name) => is_named(path@, name@, "narinfo"@),
            Err(error) => error is NotFound && is_not_named(path@, "narinfo"@),
        },
{
    name_before(path, "narinfo")
}

/// The store path hash that `{storePathHash}.nar` asks for. Other paths are not found.
pub fn nar_path(path: &str) -> (r: Result<String, ErrorKind>)
    ensures
        match r {
            Ok(name) => is_named(path@, name@, "nar"@),
            Err(error) => error is NotFound && is_not_named(path@, "nar"@),
        },
{
    name_before(path, "nar")
}

/// How a NAR is put together from its chunks `C`.
#[derive(Debug)]
pub enum NarPlan<C> {
    /// It is one chunk.
    Single(C),

    /// It is made of these chunks, in order.
    Reassemble(Vec<C>),
}

/// The chunks that `chunks` are, when none of them is missing.
pub open spec fn present_chunks<C>(chunks: Seq<Option<C>>) -> Seq<C> {
    chunks.map_values(|c: Option<C>| c->0)
}

/// `plan` is how the NAR that consists of `chunks` is put together; there is a plan only if no chunk
/// is missing.
pub open spec fn is_plan_of<C>(plan: NarPlan<C>, chunks: Seq<Option<C>>) -> bool {
    &&& !lacks_chunk(chunks)
    &&& match plan {
        NarPlan::Single(chunk) => chunks.len() == 1 && chunks[0] == Some(chunk),
        NarPlan::Reassemble(list) => chunks.len() != 1 && list@ == present_chunks(chunks),
    }
}

/// A chunk is missing.
pub open spec fn lacks_chunk<C>(chunks: Seq<Option<C>>) -> bool {
    exists|i: int| 0 <= i < chunks.len() && (#[trigger] chunks[i]) is None
}

/// Decides how a NAR is put together. A missing chunk is `None`.
pub fn plan_nar<C>(chunks: Vec<Option<C>>) -> (r: Result<NarPlan<C>, ErrorKind>)
    ensures
        match r {
            Ok(plan) => is_plan_of(plan, chunks@),
            Err(error) => error is IncompleteNar && lacks_chunk(chunks@),
        },
{
    let ghost all = chunks@;
    let count: usize = chunks.len();
    let mut list: Vec<C> = Vec::new();
    for chunk in it: chunks
        invariant
            it.seq() == all,
            all == chunks@,
            list@.len() == it.index(),
            forall|i: int|
                0 <= i < it.index() ==> #[trigger] all[i] == Some(list@[i]),
    {
        match chunk {
            Some(chunk) => list.push(chunk),
            None => {
                proof {
                    assert(all[it.index()] is None);
                }
                return Err(ErrorKind::IncompleteNar);
            },
        }
    }
    proof {
        assert(list@ =~= present_chunks(all));
    }
    if count == 1 {
        proof {
            assert(all[0] == Some(list@[0]));
        }
        match list.pop() {
            Some(chunk) => Ok(NarPlan::Single(chunk)),
            None => Err(ErrorKind::IncompleteNar),
        }
    } else {
        Ok(NarPlan::Reassemble(list))
    }
}

/// Lets a client pull from a cache, which is public or not, if `permission` says that it may. Only
/// then does the response tell whether the cache is public.
pub fn admit_pull(
    state: &mut RequestState,
    is_public: bool,
    permission: Result<(), ErrorKind>,
) -> (r: Result<(), ErrorKind>)
    ensures
        r == permission,
        *final(state) == (match permission {
            Ok(unit) => RequestState { public_cache: is_public, ..*old(state) },
            Err(error) => *old(state),
        }),
{
    match permission {
        Ok(unit) => {
            state.set_public_cache(is_public);
            Ok(unit)
        },
        Err(error) => Err(error),
    }
}

/// How a request for a NAR is answered.
#[derive(Debug)]
pub struct NarAnswer<C> {
    /// How the NAR is put together.
    pub plan: NarPlan<C>,

    /// Whether to bump the object's time of last access.
    pub bump: bool,
}

/// Decides how a request for a NAR is answered, once its object is found in the database.
///
/// `permission` tells whether the client may pull from the cache, which is public or not, and
/// `chunks` are those of the NAR. The client learns of nothing but the refusal if it may not pull.
/// The time of last access is bumped only for a NAR that can be handed out.
pub fn answer_nar<C>(
    state: &mut RequestState,
    is_public: bool,
    permission: Result<(), ErrorKind>,
    chunks: Vec<Option<C>>,
    last_accessed_at: Option<i128>,
    now: i128,
) -> (r: Result<NarAnswer<C>, ErrorKind>)
    requires
        comparable_times(last_accessed_at, now),
    ensures
        match permission {
            Ok(unit) => {
                &&& *final(state) == (RequestState { public_cache: is_public, ..*old(state) })
                &&& match r {
                    Ok(answer) => {
                        &&& is_plan_of(answer.plan, chunks@)
                        &&& answer.bump == due_for_bump(last_accessed_at, now)
                    },
                    Err(error) => error is IncompleteNar && lacks_chunk(chunks@),
                }
            },
            Err(error) => {
                &&& *final(state) == *old(state)
                &&& r == Err::<NarAnswer<C>, ErrorKind>(error)
            },
        },
{
    match admit_pull(state, is_public, permission) {
        Ok(_) => match plan_nar(chunks) {
            Ok(plan) => {
                let bump = should_bump_last_accessed(last_accessed_at, now);
                Ok(NarAnswer { plan, bump })
            },
            Err(error) => Err(error),
        },
        Err(error) => Err(error),
    }
}

/// How the storage hands out a chunk.
#[derive(Clone, Copy, Debug, PartialEq, Eq, Structural)]
pub enum ChunkDownload {
    Url,
    AsyncRead,
}

/// The answer to a request for a NAR.
#[derive(Debug)]
pub enum NarResponse {
    /// A temporary redirect to where the NAR is.
    Redirect {
        cache_control: String,
    },

    /// The NAR itself.
    Stream {
        cache_control: String,
    },
}

/// The answer with a NAR that is one chunk: a redirect, which soon gets stale, or the NAR, which
/// never changes.
pub fn single_chunk_response(download: ChunkDownload, is_public: bool) -> (r: NarResponse)
    ensures
        match download {
            ChunkDownload::Url => r matches NarResponse::Redirect { cache_control } && cache_control@
                == cache_control_text(is_public, REDIRECT_MAX_AGE, false),
            ChunkDownload::AsyncRead => r matches NarResponse::Stream { cache_control }
                && cache_control@ == cache_control_text(is_public, NAR_MAX_AGE, true),
        },
{
    match download {
        ChunkDownload::Url => NarResponse::Redirect {
            cache_control: cache_control(is_public, REDIRECT_MAX_AGE, false),
        },
        ChunkDownload::AsyncRead => NarResponse::Stream {
            cache_control: cache_control(is_public, NAR_MAX_AGE, true),
        },
    }
}

/// The answer with a NAR that is put together from several chunks.
pub fn reassembled_response(is_public: bool) -> (r: NarResponse)
    ensures
        r matches NarResponse::Stream { cache_control } && cache_control@ == cache_control_text(
            is_public,
            NAR_MAX_AGE,
            true,
        ),
{
    NarResponse::Stream { cache_control: cache_control(is_public, NAR_MAX_AGE, true) }
}

/// Whether a chunk can be streamed into a NAR that is put together; else, why not.
pub fn reassembly_source(download: ChunkDownload) -> (r: Result<(), String>)
    ensures
        match r {
            Ok(unit) => download == ChunkDownload::AsyncRead,
            Err(message) => download == ChunkDownload::Url && message@
                == "URLs not supported for NAR reassembly"@,
        },
{
    match download {
        ChunkDownload::AsyncRead => Ok(()),
        ChunkDownload::Url => Err("URLs not supported for NAR reassembly".to_owned()),
    }
}

/// The `Cache-Control` header of information on a cache or a store path.
pub fn info_cache_control(is_public: bool) -> (r: String)
    ensures
        r@ == cache_control_text(is_public, INFO_MAX_AGE, false),
        valid_header_text(r@),
{
    cache_control(is_public, INFO_MAX_AGE, false)
}

/// Nix cache information.
#[derive(Debug)]
pub struct NixCacheInfo {
    /// Whether this binary cache supports bulk queries.
    pub want_mass_query: bool,

    /// The Nix store path this binary cache uses.
    pub store_dir: String,

    /// The priority of the binary cache.
    ///
    /// A lower number denotes a higher priority. <https://cache.nixos.org> has a priority of 40.
    pub priority: i32,
}

impl NixCacheInfo {
    /// Information on a cache with the given store directory and priority.
    pub fn new(store_dir: String, priority: i32) -> (r: NixCacheInfo)
        ensures
            r.want_mass_query,
            r.store_dir == store_dir,
            r.priority == priority,
    {
        NixCacheInfo { want_mass_query: true, store_dir, priority }
    }
}

/// A plan names every chunk of the NAR, in order and with nothing left out. There is one exactly if
/// no chunk is missing.
pub proof fn law_plan_names_every_chunk<C>(
    chunks: Vec<Option<C>>,
    r: Result<NarPlan<C>, ErrorKind>,
)
    requires
        call_ensures(plan_nar::<C>, (chunks,), r),
    ensures
        r is Ok <==> forall|i: int| 0 <= i < chunks@.len() ==> (#[trigger] chunks@[i]) is Some,
        r matches Ok(NarPlan::Single(chunk)) ==> chunks@ == seq![Some(chunk)],
        r matches Ok(NarPlan::Reassemble(list)) ==> chunks@.len() == list@.len() && forall|i: int|
            0 <= i < list@.len() ==> #[trigger] chunks@[i] == Some(list@[i]),
{
    match r {
        Ok(NarPlan::Single(chunk)) => {
            assert(chunks@ =~= seq![Some(chunk)]);
        },
        Ok(NarPlan::Reassemble(list)) => {
            assert forall|i: int| 0 <= i < list@.len() implies #[trigger] chunks@[i] == Some(
                list@[i],
            ) by {
                assert(chunks@[i] is Some);
            }
        },
        Err(error) => {},
    }
}

/// A client that may not pull gets the refusal and nothing else. Otherwise a NAR is handed out exactly
/// if none of its chunks is missing, put together from all of them in order, and its time of last
/// access is bumped then alone, if it has none or more than an hour has passed.
pub proof fn law_nar_is_answered_whole_or_not_at_all<C>(
    state: &mut RequestState,
    is_public: bool,
    permission: Result<(), ErrorKind>,
    chunks: Vec<Option<C>>,
    last_accessed_at: Option<i128>,
    now: i128,
    r: Result<NarAnswer<C>, ErrorKind>,
)
    requires
        call_ensures(
            answer_nar::<C>,
            (state, is_public, permission, chunks, last_accessed_at, now),
            r,
        ),
    ensures
        permission matches Err(error) ==> r == Err::<NarAnswer<C>, ErrorKind>(error)
            && final(state).public_cache == old(state).public_cache,
        permission is Ok ==> {
            &&& final(state).public_cache == is_public
            &&& r is Ok <==> forall|i: int| 0 <= i < chunks@.len() ==> (#[trigger] chunks@[i]) is Some
            &&& r matches Err(error) ==> error is IncompleteNar
            &&& r matches Ok(answer) ==> {
                &&& match answer.plan {
                    NarPlan::Single(chunk) => chunks@ == seq![Some(chunk)],
                    NarPlan::Reassemble(list) => chunks@.len() != 1 && chunks@.len() == list@.len()
                        && forall|i: int|
                        0 <= i < list@.len() ==> #[trigger] chunks@[i] == Some(list@[i]),
                }
                &&& last_accessed_at is None ==> answer.bump
                &&& last_accessed_at matches Some(last) ==> (answer.bump <==> now - last
                    > 3600 * 1_000_000_000)
            }
        },
{
    if permission is Ok {
        match r {
            Ok(answer) => {
                match answer.plan {
                    NarPlan::Single(chunk) => {
                        assert(chunks@ =~= seq![Some(chunk)]);
                    },
                    NarPlan::Reassemble(list) => {
                        assert forall|i: int|
                            0 <= i < list@.len() implies #[trigger] chunks@[i] == Some(list@[i]) by {
                            assert(chunks@[i] is Some);
                        }
                    },
                }
            },
            Err(error) => {
                let i = choose|i: int| 0 <= i < chunks@.len() && (#[trigger] chunks@[i]) is None;
                assert(chunks@[i] is None);
            },
        }
    }
}

/// A time of last access is due for a bump if there is none, or more than an hour has passed. Once it is
/// due it stays due.
pub proof fn law_access_is_recorded_once_an_hour(
    last_accessed_at: Option<i128>,
    now: i128,
    later: i128,
    r: bool,
    r_later: bool,
)
    requires
        call_ensures(should_bump_last_accessed, (last_accessed_at, now), r),
        call_ensures(should_bump_last_accessed, (last_accessed_at, later), r_later),
        now <= later,
    ensures
        last_accessed_at is None ==> r,
        last_accessed_at matches Some(last) ==> (r <==> now - last > 3600 * 1_000_000_000),
        r ==> r_later,
{
}

/// A path is that of a NAR or of a `.narinfo` exactly if it is a hash without dots, a dot and the suffix;
/// then the hash is found.
pub proof fn law_paths_name_a_hash(
    nar: &str,
    narinfo: &str,
    r_nar: Result<String, ErrorKind>,
    r_narinfo: Result<String, ErrorKind>,
    hash: Seq<char>,
)
    requires
        call_ensures(nar_path, (nar,), r_nar),
        call_ensures(narinfo_path, (narinfo,), r_narinfo),
    ensures
        nar@ == hash + ".nar"@ && !hash.contains('.') ==> (r_nar matches Ok(found) && found@ == hash),
        narinfo@ == hash + ".narinfo"@ && !hash.contains('.') ==> (r_narinfo matches Ok(found)
            && found@ == hash),
        r_nar matches Ok(found) ==> nar@ == found@ + ".nar"@ && !found@.contains('.'),
        r_narinfo matches Ok(found) ==> narinfo@ == found@ + ".narinfo"@ && !found@.contains('.'),
        r_nar matches Err(error) ==> error is NotFound,
        r_narinfo matches Err(error) ==> error is NotFound,
{
    reveal_strlit(".nar");
    reveal_strlit("nar");
    reveal_strlit(".narinfo");
    reveal_strlit("narinfo");
    assert(".nar"@ =~= seq!['.'] + "nar"@);
    assert(".narinfo"@ =~= seq!['.'] + "narinfo"@);
    if let Ok(found) = r_nar {
        assert(found@ + seq!['.'] + "nar"@ =~= found@ + ".nar"@);
        lemma_dot_found(nar@, found@, hash, "nar"@);
    }
    if let Ok(found) = r_narinfo {
        assert(found@ + seq!['.'] + "narinfo"@ =~= found@ + ".narinfo"@);
        lemma_dot_found(narinfo@, found@, hash, "narinfo"@);
    }
    assert(hash + seq!['.'] + "nar"@ =~= hash + ".nar"@);
    assert(hash + seq!['.'] + "narinfo"@ =~= hash + ".narinfo"@);
    if nar@ == hash + ".nar"@ && !hash.contains('.') {
        assert(is_named(nar@, hash, "nar"@));
    }
    if narinfo@ == hash + ".narinfo"@ && !hash.contains('.') {
        assert(is_named(narinfo@, hash, "narinfo"@));
    }
}

proof fn lemma_dot_found(path: Seq<char>, a: Seq<char>, b: Seq<char>, suffix: Seq<char>)
    requires
        !a.contains('.'),
        path == a + seq!['.'] + suffix,
    ensures
        path == b + seq!['.'] + suffix ==> a == b,
{
    if path == b + seq!['.'] + suffix {
        assert((a + seq!['.'] + suffix).len() == a.len() + 1 + suffix.len());
        assert((b + seq!['.'] + suffix).len() == b.len() + 1 + suffix.len());
        assert forall|i: int| 0 <= i < a.len() implies a[i] == b[i] by {
            assert(path[i] == a[i]);
            assert((b + seq!['.'] + suffix)[i] == b[i]);
        }
        assert(a =~= b);
    }
}

/// A `Cache-Control` value says whether shared caches may store the response, for how many seconds, and
/// that it never changes if so.
pub proof fn law_cache_control_says_for_how_long(
    is_public: bool,
    max_age_secs: u64,
    immutable: bool,
    r: String,
    age: String,
)
    requires
        call_ensures(cache_control, (is_public, max_age_secs, immutable), r),
        call_ensures(decimal_text, (max_age_secs,), age),
    ensures
        is_public && immutable ==> r@ == "public, max-age="@ + age@ + ", immutable"@,
        is_public && !immutable ==> r@ == "public, max-age="@ + age@,
        !is_public && immutable ==> r@ == "private, max-age="@ + age@ + ", immutable"@,
        !is_public && !immutable ==> r@ == "private, max-age="@ + age@,
{
    reveal_strlit("public");
    reveal_strlit("private");
    reveal_strlit(", max-age=");
    reveal_strlit("public, max-age=");
    reveal_strlit("private, max-age=");
    reveal_strlit("");
    assert("public, max-age="@ =~= "public"@ + ", max-age="@);
    assert("private, max-age="@ =~= "private"@ + ", max-age="@);
    assert(r@ + Seq::<char>::empty() =~= r@);
    if !immutable {
        if is_public {
            assert(r@ =~= "public, max-age="@ + age@);
        } else {
            assert(r@ =~= "private, max-age="@ + age@);
        }
    }
}

/// Redirects may be cached for a minute, information for five minutes, and NARs for a year, as they never
/// change. Nothing but what is public is for shared caches.
pub proof fn law_answers_may_be_cached_for_their_time(
    is_public: bool,
    redirect: NarResponse,
    stream: NarResponse,
    reassembled: NarResponse,
    info: String,
    minute: String,
    five_minutes: String,
    year: String,
)
    requires
        call_ensures(single_chunk_response, (ChunkDownload::Url, is_public), redirect),
        call_ensures(single_chunk_response, (ChunkDownload::AsyncRead, is_public), stream),
        call_ensures(reassembled_response, (is_public,), reassembled),
        call_ensures(info_cache_control, (is_public,), info),
        call_ensures(cache_control, (is_public, 60, false), minute),
        call_ensures(cache_control, (is_public, 300, false), five_minutes),
        call_ensures(cache_control, (is_public, 31_536_000, true), year),
    ensures
        redirect matches NarResponse::Redirect { cache_control: c } && c@ == minute@,
        stream matches NarResponse::Stream { cache_control: c } && c@ == year@,
        reassembled matches NarResponse::Stream { cache_control: c } && c@ == year@,
        info@ == five_minutes@,
{
}

/// A NAR can be put together from streams only.
pub proof fn law_nars_are_put_together_from_streams(download: ChunkDownload, r: Result<(), String>)
    requires
        call_ensures(reassembly_source, (download,), r),
    ensures
        r is Ok <==> download is AsyncRead,
{
}

} // verus!
