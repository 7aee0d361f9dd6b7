//! Which store paths to push.
use vstd::prelude::*;

use crate::api::cache_config::CacheConfig;
use crate::key_map::{
    distinct_keys, is_listed, key_set, lemma_last_entry, lemma_map_of, map_of, KeyMap,
};
use crate::names::{StorePathHash, ValidPathInfo};
use crate::text::{split_once, text_eq, texts};

verus! {

/// The store paths to push, and how many there were before.
#[derive(Debug)]
pub struct PushPlan {
    /// Store paths to push.
    pub store_path_map: KeyMap<StorePathHash, ValidPathInfo>,

    /// The number of paths in the original full closure.
    pub num_all_paths: usize,

    /// Number of paths that have been filtered out because they are already cached.
    pub num_already_cached: usize,

    /// Number of paths that have been filtered out because they are signed by an upstream cache.
    pub num_upstream: usize,

    /// The hashes of the paths that have been filtered out because they are already cached.
    pub already_cached: Vec<StorePathHash>,
}

impl PushPlan {
    /// The hashes of the paths that exist on the remote cache, as the server said.
    pub open spec fn cached(&self) -> Set<Seq<char>> {
        Set::new(|h: Seq<char>| is_listed(self.already_cached@, h))
    }
}

/// A plan for which the server still has to say which paths it misses.
#[derive(Debug)]
pub struct PendingPlan {
    /// Store paths that may have to be pushed.
    pub store_path_map: KeyMap<StorePathHash, ValidPathInfo>,

    /// The number of paths in the original full closure.
    pub num_all_paths: usize,
}

/// What comes next in making a plan.
#[derive(Debug)]
pub enum PlanStep {
    /// The plan is finished: there is nothing to ask the server about.
    Done(PushPlan),

    /// The server has to be asked which paths it misses.
    QueryMissing(PendingPlan),
}

/// The signature `sig` is by the key `name`: the key's name stands before the first colon.
pub open spec fn signed_by(sig: Seq<char>, name: Seq<char>) -> bool {
    &&& sig.len() > name.len()
    &&& sig.take(name.len() as int) == name
    &&& sig[name.len() as int] == ':'
    &&& !name.contains(':')
}

/// One of the signatures is by one of the keys `names`.
pub open spec fn signed_upstream(sigs: Seq<String>, names: Seq<Seq<char>>) -> bool {
    exists|i: int, j: int|
        0 <= i < sigs.len() && 0 <= j < names.len() && signed_by(
            #[trigger] sigs[i]@,
            #[trigger] names[j],
        )
}

/// The key names of the upstream caches; none if the configuration does not say.
pub open spec fn upstream_names(config: CacheConfig) -> Seq<Seq<char>> {
    match config.upstream_cache_key_names {
        Some(names) => texts(names@),
        None => Seq::empty(),
    }
}

/// The paths that are left when those signed by an upstream cache are taken out.
pub open spec fn not_upstream(
    all: Map<Seq<char>, ValidPathInfo>,
    names: Seq<Seq<char>>,
) -> Map<Seq<char>, ValidPathInfo> {
    Map::new(
        |k: Seq<char>| all.contains_key(k) && !signed_upstream(all[k].sigs@, names),
        |k: Seq<char>| all[k],
    )
}

/// The paths of `all` whose hashes are in `hashes`.
pub open spec fn restricted_to(
    all: Map<Seq<char>, ValidPathInfo>,
    hashes: Seq<StorePathHash>,
) -> Map<Seq<char>, ValidPathInfo> {
    Map::new(
        |k: Seq<char>| all.contains_key(k) && is_listed(hashes, k),
        |k: Seq<char>| all[k],
    )
}

fn is_signed_by(sig: &String, name: &String) -> (r: bool)
    ensures
        r == signed_by(sig@, name@),
{
    match split_once(sig.as_str(), ':') {
        Some((before, after)) => {
            let r = text_eq(before.as_str(), name.as_str());
            proof {
                let n = before@.len() as int;
                assert(sig@.take(n) =~= before@);
                assert(sig@[n] == ':');
                if signed_by(sig@, name@) {
                    let m = name@.len() as int;
                    if m < n {
                        assert(before@[m] == sig@[m]);
                        assert(before@.contains(':'));
                    } else if n < m {
                        assert(name@[n] == sig@.take(m)[n]);
                        assert(name@.contains(':'));
                    }
                    assert(before@ =~= name@);
                }
            }
            r
        },
        None => {
            proof {
                if signed_by(sig@, name@) {
                    assert(sig@.contains(sig@[name@.len() as int]));
                }
            }
            false
        },
    }
}

fn is_signed_upstream(sigs: &Vec<String>, names: &Vec<String>) -> (r: bool)
    ensures
        r == signed_upstream(sigs@, texts(names@)),
{
    let mut i: usize = 0;
    while i < sigs.len()
        invariant
            i <= sigs.len(),
            forall|k: int, j: int|
                0 <= k < i && 0 <= j < names@.len() ==> !signed_by(
                    #[trigger] sigs@[k]@,
                    #[trigger] texts(names@)[j],
                ),
        decreases sigs.len() - i,
    {
        let mut j: usize = 0;
        while j < names.len()
            invariant
                i < sigs.len(),
                j <= names.len(),
                forall|l: int|
                    0 <= l < j ==> !signed_by(sigs@[i as int]@, #[trigger] texts(names@)[l]),
            decreases names.len() - j,
        {
            if is_signed_by(&sigs[i], &names[j]) {
                proof {
                    assert(signed_by(sigs@[i as int]@, texts(names@)[j as int]));
                }
                return true;
            }
            j = j + 1;
        }
        i = i + 1;
    }
    false
}

impl PushPlan {
    /// Starts a plan from the metadata of all paths of the closure.
    ///
    /// Unless `ignore_upstream_filter` is set, paths signed by one of the cache's upstream caches
    /// are filtered out.
    pub fn plan(
        closure: Vec<(StorePathHash, ValidPathInfo)>,
        cache_config: &CacheConfig,
        ignore_upstream_filter: bool,
    ) -> (r: PlanStep)
        ensures
            ({
                let all = map_of(closure@);
                let kept = if ignore_upstream_filter {
                    all
                } else {
                    not_upstream(all, upstream_names(*cache_config))
                };
                &&& all.dom().finite() && kept.dom().finite()
                &&& kept.dom().len() <= all.dom().len()
                &&& r is Done <==> kept.dom().len() == 0
                &&& match r {
                    PlanStep::Done(plan) => {
                        &&& plan.store_path_map@ == kept
                        &&& plan.num_all_paths == all.dom().len()
                        &&& plan.num_already_cached == 0
                        &&& plan.num_upstream == all.dom().len()
                        &&& plan.already_cached@.len() == 0
                    },
                    PlanStep::QueryMissing(pending) => {
                        &&& pending.store_path_map@ == kept
                        &&& pending.num_all_paths == all.dom().len()
                    },
                }
            }),
    {
        let ghost all = map_of(closure@);
        let store_path_map = KeyMap::from_entries(closure);
        let num_all_paths: usize = store_path_map.len();
        if num_all_paths == 0 {
            proof {
                assert(all.dom() =~= Set::empty());
                assert(not_upstream(all, upstream_names(*cache_config)) =~= all);
            }
            return PlanStep::Done(
                PushPlan {
                    store_path_map,
                    num_all_paths,
                    num_already_cached: 0,
                    num_upstream: 0,
                    already_cached: Vec::new(),
                },
            );
        }
        let store_path_map = if ignore_upstream_filter {
            store_path_map
        } else {
            let no_names: Vec<String> = Vec::new();
            let names: &Vec<String> = match &cache_config.upstream_cache_key_names {
                Some(names) => names,
                None => &no_names,
            };
            proof {
                assert(texts(names@) =~= upstream_names(*cache_config));
            }
            let keep = |hash: &StorePathHash, info: &ValidPathInfo| -> (b: bool)
                ensures
                    b == !signed_upstream(info.sigs@, texts(names@)),
                {
                    !is_signed_upstream(&info.sigs, names)
                };
            let kept = store_path_map.retain(keep);
            proof {
                assert(kept@ =~= not_upstream(all, upstream_names(*cache_config)));
            }
            kept
        };
        let num_filtered_paths: usize = store_path_map.len();
        proof {
            assert(store_path_map@.dom().subset_of(all.dom()));
            vstd::set_lib::lemma_len_subset(store_path_map@.dom(), all.dom());
        }
        if num_filtered_paths == 0 {
            return PlanStep::Done(
                PushPlan {
                    store_path_map,
                    num_all_paths,
                    num_already_cached: 0,
                    num_upstream: num_all_paths - num_filtered_paths,
                    already_cached: Vec::new(),
                },
            );
        }
        PlanStep::QueryMissing(PendingPlan { store_path_map, num_all_paths })
    }
}

impl PendingPlan {
    /// The hashes to ask the server about.
    pub fn store_path_hashes(&self) -> (r: Vec<StorePathHash>)
        ensures
            r@.len() == self.store_path_map@.dom().len(),
            forall|i: int| 0 <= i < r@.len() ==> self.store_path_map@.contains_key(#[trigger] r@[i]@),
            forall|i: int, j: int| 0 <= i < j < r@.len() ==> #[trigger] r@[i]@ != #[trigger] r@[j]@,
            forall|h: Seq<char>| #[trigger]
                self.store_path_map@.contains_key(h) ==> is_listed(r@, h),
    {
        let n: usize = self.store_path_map.len();
        let ghost pairs = self.store_path_map.pairs();
        let mut out: Vec<StorePathHash> = Vec::new();
        let mut i: usize = 0;
        while i < n
            invariant
                pairs == self.store_path_map.pairs(),
                distinct_keys(pairs),
                i <= n == pairs.len(),
                out@.len() == i,
                forall|k: int|
                    0 <= k < i ==> #[trigger] out@[k]@ == pairs[k].0@
                        && self.store_path_map@.contains_key(out@[k]@),
            decreases n - i,
        {
            out.push(self.store_path_map.entry(i).0.clone());
            i = i + 1;
        }
        proof {
            assert forall|a: int, b: int| 0 <= a < b < out@.len() implies #[trigger] out@[a]@
                != #[trigger] out@[b]@ by {
                assert(pairs[a].0@ != pairs[b].0@);
            }
            lemma_map_of(pairs);
            assert forall|h: Seq<char>| #[trigger]
                self.store_path_map@.contains_key(h) implies is_listed(out@, h) by {
                let k = choose|k: int| 0 <= k < pairs.len() && #[trigger] pairs[k].0@ == h;
                assert(out@[k]@ == h);
            }
        }
        out
    }

    /// The hashes of the paths that are not in `missing`.
    fn not_missing(&self, missing: &KeyMap<StorePathHash, ()>) -> (r: Vec<StorePathHash>)
        ensures
            forall|h: Seq<char>| #[trigger]
                is_listed(r@, h) <==> self.store_path_map@.contains_key(h)
                    && !missing@.contains_key(h),
    {
        let n: usize = self.store_path_map.len();
        let ghost pairs = self.store_path_map.pairs();
        let mut out: Vec<StorePathHash> = Vec::new();
        let mut i: usize = 0;
        while i < n
            invariant
                pairs == self.store_path_map.pairs(),
                i <= n == pairs.len(),
                forall|h: Seq<char>| #[trigger]
                    is_listed(out@, h) <==> !missing@.contains_key(h) && exists|k: int|
                        0 <= k < i && (#[trigger] pairs[k]).0@ == h,
            decreases n - i,
        {
            let ghost before = out@;
            let entry = self.store_path_map.entry(i);
            let ghost view = entry.0@;
            if !missing.contains_key(&entry.0) {
                out.push(entry.0.clone());
            }
            proof {
                assert forall|h: Seq<char>| #[trigger]
                    is_listed(out@, h) <==> !missing@.contains_key(h) && exists|k: int|
                        0 <= k < i + 1 && (#[trigger] pairs[k]).0@ == h by {
                    assert(pairs[i as int].0@ == view);
                    assert(is_listed(out@, h) <==> is_listed(before, h) || (h == view
                        && !missing@.contains_key(view))) by {
                        if is_listed(before, h) {
                            let k = choose|k: int|
                                0 <= k < before.len() && #[trigger] before[k]@ == h;
                            assert(out@[k]@ == h);
                        }
                        if is_listed(out@, h) && h != view {
                            let k = choose|k: int| 0 <= k < out@.len() && #[trigger] out@[k]@ == h;
                            assert(before[k]@ == h);
                        }
                        if !missing@.contains_key(view) {
                            assert(out@[before.len() as int]@ == view);
                        } else {
                            assert(out@ == before);
                        }
                    }
                    if exists|k: int| 0 <= k < i + 1 && (#[trigger] pairs[k]).0@ == h {
                        let k = choose|k: int| 0 <= k < i + 1 && (#[trigger] pairs[k]).0@ == h;
                        assert(k < i || h == view);
                    }
                }
            }
            i = i + 1;
        }
        proof {
            lemma_map_of(pairs);
        }
        out
    }

    /// The plan that the server's answer leads to: the paths that it misses are pushed, and the
    /// others are already cached.
    pub fn finish(self, missing_paths: Vec<StorePathHash>) -> (r: PushPlan)
        requires
            self.store_path_map@.dom().len() <= self.num_all_paths,
        ensures
            r.store_path_map@ == restricted_to(self.store_path_map@, missing_paths@),
            r.num_all_paths == self.num_all_paths,
            r.num_upstream == self.num_all_paths - self.store_path_map@.dom().len(),
            r.num_already_cached == self.store_path_map@.dom().len()
                - r.store_path_map@.dom().len(),
            r.num_all_paths == r.num_upstream + r.num_already_cached
                + r.store_path_map@.dom().len(),
            forall|h: Seq<char>| #[trigger]
                is_listed(r.already_cached@, h) <==> self.store_path_map@.contains_key(h)
                    && !is_listed(missing_paths@, h),
    {
        let ghost all = self.store_path_map@;
        let num_filtered_paths: usize = self.store_path_map.len();
        let missing = key_set(missing_paths);
        let already_cached = self.not_missing(&missing);
        let keep = |hash: &StorePathHash, info: &ValidPathInfo| -> (b: bool)
            ensures
                b == missing@.contains_key(hash@),
            {
                missing.contains_key(hash)
            };
        let store_path_map = self.store_path_map.retain(keep);
        let num_missing_paths: usize = store_path_map.len();
        proof {
            assert(store_path_map@ =~= restricted_to(all, missing_paths@));
            assert(store_path_map@.dom().subset_of(all.dom()));
            vstd::set_lib::lemma_len_subset(store_path_map@.dom(), all.dom());
        }
        PushPlan {
            store_path_map,
            num_all_paths: self.num_all_paths,
            num_already_cached: num_filtered_paths - num_missing_paths,
            num_upstream: self.num_all_paths - num_filtered_paths,
            already_cached,
        }
    }
}

/// The paths that may have to be pushed once a plan has been started.
pub open spec fn left_to_push(step: PlanStep) -> Map<Seq<char>, ValidPathInfo> {
    match step {
        PlanStep::Done(plan) => plan.store_path_map@,
        PlanStep::QueryMissing(pending) => pending.store_path_map@,
    }
}

/// The signature `sig` is the key name `name`, a colon, and anything.
proof fn lemma_signed_by(sig: Seq<char>, name: Seq<char>)
    ensures
        signed_by(sig, name) <==> !name.contains(':') && (name + seq![':']).is_prefix_of(sig),
{
    let start = name + seq![':'];
    if signed_by(sig, name) {
        assert forall|i: int| 0 <= i < start.len() implies start[i] == sig[i] by {
            if i < name.len() {
                assert(sig.take(name.len() as int)[i] == name[i]);
            }
        }
        assert(sig.subrange(0, start.len() as int) =~= start);
    }
    if start.is_prefix_of(sig) {
        assert(sig.take(name.len() as int) =~= name) by {
            assert forall|i: int| 0 <= i < name.len() implies sig[i] == name[i] by {
                assert(start[i] == name[i]);
            }
        }
        assert(start[name.len() as int] == ':');
    }
}

/// A path of the closure is left out exactly if the filter is on and any of its signatures is by any
/// of the upstream keys: such a signature is the key's name, a colon, and anything. Where the same
/// path is given several times, the last one, `i`, counts.
pub proof fn law_only_what_an_upstream_key_signed_is_left_out(
    closure: Vec<(StorePathHash, ValidPathInfo)>,
    cache_config: &CacheConfig,
    ignore_upstream_filter: bool,
    r: PlanStep,
    i: int,
)
    requires
        call_ensures(PushPlan::plan, (closure, cache_config, ignore_upstream_filter), r),
        0 <= i < closure@.len(),
        forall|k: int| i < k < closure@.len() ==> (#[trigger] closure@[k]).0@ != closure@[i].0@,
    ensures
        ({
            let sigs = closure@[i].1.sigs@;
            let left = match r {
                PlanStep::Done(plan) => plan.store_path_map@,
                PlanStep::QueryMissing(pending) => pending.store_path_map@,
            };
            let kept = left.contains_key(closure@[i].0@);
            &&& kept ==> left[closure@[i].0@] == closure@[i].1
            &&& ignore_upstream_filter ==> kept
            &&& cache_config.upstream_cache_key_names is None ==> kept
            &&& cache_config.upstream_cache_key_names matches Some(names) ==> (
            !ignore_upstream_filter ==> (kept <==> forall|s: int, u: int|
                0 <= s < sigs.len() && 0 <= u < names@.len() && !(
                #[trigger] names@[u])@.contains(':') ==> !(names@[u]@ + seq![':']).is_prefix_of(
                    (#[trigger] sigs[s])@,
                )))
        }),
{
    let all = map_of(closure@);
    let sigs = closure@[i].1.sigs@;
    lemma_last_entry(closure@, i);
    if let Some(names) = cache_config.upstream_cache_key_names {
        assert forall|s: int, u: int| 0 <= s < sigs.len() && 0 <= u < names@.len() implies signed_by(
            (#[trigger] sigs[s])@,
            (#[trigger] names@[u])@,
        ) == (!names@[u]@.contains(':') && (names@[u]@ + seq![':']).is_prefix_of(sigs[s]@)) by {
            lemma_signed_by(sigs[s]@, names@[u]@);
        }
        assert forall|u: int| 0 <= u < names@.len() implies #[trigger] texts(names@)[u]
            == names@[u]@ by {}
        if signed_upstream(sigs, texts(names@)) {
            let (s, u) = choose|s: int, u: int|
                0 <= s < sigs.len() && 0 <= u < texts(names@).len() && signed_by(
                    #[trigger] sigs[s]@,
                    #[trigger] texts(names@)[u],
                );
            assert(signed_by(sigs[s]@, names@[u]@));
        } else {
            assert forall|s: int, u: int|
                0 <= s < sigs.len() && 0 <= u < names@.len() implies !signed_by(
                (#[trigger] sigs[s])@,
                (#[trigger] names@[u])@,
            ) by {
                assert(!signed_by(sigs[s]@, texts(names@)[u]));
            }
        }
    }
}

/// Nothing is pushed that is not in the closure. All its paths are counted, each once, and the plan is
/// finished at once only if none is left.
pub proof fn law_plan_is_made_from_the_closure(
    closure: Vec<(StorePathHash, ValidPathInfo)>,
    cache_config: &CacheConfig,
    ignore_upstream_filter: bool,
    r: PlanStep,
    h: Seq<char>,
)
    requires
        call_ensures(PushPlan::plan, (closure, cache_config, ignore_upstream_filter), r),
    ensures
        left_to_push(r).contains_key(h) ==> exists|i: int|
            0 <= i < closure@.len() && (#[trigger] closure@[i]).0@ == h,
        (match r {
            PlanStep::Done(plan) => plan.num_all_paths,
            PlanStep::QueryMissing(pending) => pending.num_all_paths,
        }) == closure@.map_values(|e: (StorePathHash, ValidPathInfo)| e.0@).to_set().len(),
        r matches PlanStep::Done(plan) ==> {
            &&& !plan.store_path_map@.contains_key(h)
            &&& plan.num_upstream == plan.num_all_paths
            &&& plan.num_already_cached == 0
        },
        r is QueryMissing ==> exists|k: Seq<char>| #[trigger] left_to_push(r).contains_key(k),
{
    let all = map_of(closure@);
    lemma_map_of(closure@);
    if left_to_push(r).contains_key(h) {
        assert(all.contains_key(h));
        let i = choose|i: int| 0 <= i < closure@.len() && #[trigger] closure@[i].0@ == h;
        assert(closure@[i].0@ == h);
    }
    let keys = closure@.map_values(|e: (StorePathHash, ValidPathInfo)| e.0@);
    assert forall|k: Seq<char>| #[trigger] keys.to_set().contains(k) == all.dom().contains(k) by {
        if keys.contains(k) {
            let i = choose|i: int| 0 <= i < keys.len() && keys[i] == k;
            assert(closure@[i].0@ == k);
        }
        if all.contains_key(k) {
            let i = choose|i: int| 0 <= i < closure@.len() && #[trigger] closure@[i].0@ == k;
            assert(keys[i] == k);
        }
    }
    assert(keys.to_set() =~= all.dom());
    match r {
        PlanStep::Done(plan) => {
            assert(plan.store_path_map@.dom() =~= Set::empty());
        },
        PlanStep::QueryMissing(pending) => {
            let k = pending.store_path_map@.dom().choose();
            assert(left_to_push(r).contains_key(k));
        },
    }
}

/// Of the paths that the server was asked about, those are pushed that it named as missing, and the
/// others count as cached. Nothing else is pushed or counted.
pub proof fn law_what_the_server_lacks_is_pushed(
    pending: PendingPlan,
    missing_paths: Vec<StorePathHash>,
    r: PushPlan,
    h: Seq<char>,
)
    requires
        call_ensures(PendingPlan::finish, (pending, missing_paths), r),
    ensures
        r.store_path_map@.contains_key(h) <==> pending.store_path_map@.contains_key(h) && exists|
            j: int,
        |
            0 <= j < missing_paths@.len() && (#[trigger] missing_paths@[j])@ == h,
        r.store_path_map@.contains_key(h) ==> r.store_path_map@[h] == pending.store_path_map@[h],
        (exists|k: int| 0 <= k < r.already_cached@.len() && (#[trigger] r.already_cached@[k])@ == h)
            <==> pending.store_path_map@.contains_key(h) && forall|j: int|
            0 <= j < missing_paths@.len() ==> (#[trigger] missing_paths@[j])@ != h,
        r.num_upstream + r.num_already_cached + r.store_path_map@.dom().len()
            == pending.num_all_paths,
        r.num_already_cached + r.store_path_map@.dom().len() == pending.store_path_map@.dom().len(),
{
    if exists|j: int| 0 <= j < missing_paths@.len() && (#[trigger] missing_paths@[j])@ == h {
        let j = choose|j: int| 0 <= j < missing_paths@.len() && (#[trigger] missing_paths@[j])@ == h;
        assert(missing_paths@[j]@ == h);
        assert(is_listed(missing_paths@, h));
    }
    if is_listed(missing_paths@, h) {
        let j = choose|j: int| 0 <= j < missing_paths@.len() && #[trigger] missing_paths@[j]@ == h;
        assert(missing_paths@[j]@ == h);
    }
    if exists|k: int| 0 <= k < r.already_cached@.len() && (#[trigger] r.already_cached@[k])@ == h {
        let k = choose|k: int|
            0 <= k < r.already_cached@.len() && (#[trigger] r.already_cached@[k])@ == h;
        assert(r.already_cached@[k]@ == h);
        assert(is_listed(r.already_cached@, h));
    }
    if is_listed(r.already_cached@, h) {
        let k = choose|k: int|
            0 <= k < r.already_cached@.len() && #[trigger] r.already_cached@[k]@ == h;
        assert(r.already_cached@[k]@ == h);
    }
}

/// The server is asked about every path that is left, and about no other.
pub proof fn law_every_path_left_is_asked_about(
    pending: &PendingPlan,
    r: Vec<StorePathHash>,
    h: Seq<char>,
)
    requires
        call_ensures(PendingPlan::store_path_hashes, (pending,), r),
    ensures
        pending.store_path_map@.contains_key(h) <==> exists|i: int|
            0 <= i < r@.len() && (#[trigger] r@[i])@ == h,
{
    if is_listed(r@, h) {
        let i = choose|i: int| 0 <= i < r@.len() && #[trigger] r@[i]@ == h;
        assert(r@[i]@ == h);
    }
}

} // verus!
