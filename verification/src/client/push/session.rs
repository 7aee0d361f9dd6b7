//! Batching of a stream of store paths.
use vstd::prelude::*;

use crate::client::push::plan::PushPlan;
use crate::key_map::{distinct_keys, is_listed, lemma_map_of, map_of, KeyMap};
use crate::names::{StorePath, StorePathHash, ValidPathInfo};

verus! {

/// How long a batch waits for another path to be queued, in seconds.
pub const QUEUE_IDLE_SECONDS: u64 = 2;

/// How long a batch is collected at most, in seconds.
pub const BATCH_LIMIT_SECONDS: u64 = 10;

/// What the owner of a session asks of it.
#[derive(Debug)]
pub enum SessionQueueCommand {
    /// Push these paths.
    Paths(Vec<StorePath>),

    /// Do not wait for more paths.
    Flush,

    /// Push what there is and stop.
    Terminate,
}

/// What came out of waiting for a command.
#[derive(Debug)]
pub enum SessionQueuePoll {
    Paths(Vec<StorePath>),
    Flush,
    Terminate,
    Closed,
    TimedOut,
}

impl SessionQueuePoll {
    /// What a received command means; `None` if the queue is closed.
    pub fn from_command(command: Option<SessionQueueCommand>) -> (r: SessionQueuePoll)
        ensures
            r == (match command {
                Some(SessionQueueCommand::Paths(paths)) => SessionQueuePoll::Paths(paths),
                Some(SessionQueueCommand::Flush) => SessionQueuePoll::Flush,
                Some(SessionQueueCommand::Terminate) => SessionQueuePoll::Terminate,
                None => SessionQueuePoll::Closed,
            }),
    {
        match command {
            Some(SessionQueueCommand::Paths(paths)) => SessionQueuePoll::Paths(paths),
            Some(SessionQueueCommand::Flush) => SessionQueuePoll::Flush,
            Some(SessionQueueCommand::Terminate) => SessionQueuePoll::Terminate,
            None => SessionQueuePoll::Closed,
        }
    }
}

/// Whether the collection of a batch is over.
#[derive(Clone, Copy, Debug, PartialEq, Eq, Structural)]
pub enum BatchState {
    /// More may be queued.
    Collecting,

    /// The batch is to be pushed.
    Submit {
        /// Whether it is the last one.
        done: bool,
    },
}

/// The paths that a session has collected for the next batch, and the paths that it knows.
///
/// A session batches operations in order to minimize the number of closure computations and API
/// calls. It also remembers which paths already exist on the remote cache: those that it has pushed,
/// and those that the server did not report as missing.
#[derive(Debug)]
pub struct SessionBatch {
    roots: KeyMap<StorePath, ()>,
    known_paths: KeyMap<StorePathHash, ()>,
}

/// The views of `paths`.
pub open spec fn path_views(paths: Seq<StorePath>) -> Set<(Seq<u8>, Seq<char>)> {
    paths.map_values(|p: StorePath| p@).to_set()
}

/// The entries of `all` whose hashes are not in `known`.
pub open spec fn without_known(
    all: Map<Seq<char>, ValidPathInfo>,
    known: Set<Seq<char>>,
) -> Map<Seq<char>, ValidPathInfo> {
    all.remove_keys(known)
}

/// What is known when a plan has been taken too: its paths are pushed, and others that it was made
/// from are already cached.
pub open spec fn with_plan(known: Set<Seq<char>>, plan: PushPlan) -> Set<Seq<char>> {
    known.union(plan.store_path_map@.dom()).union(plan.cached())
}

/// The paths of `roots` whose hashes are not in `known`.
pub open spec fn unknown_roots(
    roots: Set<(Seq<u8>, Seq<char>)>,
    known: Set<Seq<char>>,
) -> Set<(Seq<u8>, Seq<char>)> {
    roots.filter(|p: (Seq<u8>, Seq<char>)| !known.contains(p.1))
}

impl SessionBatch {
    /// The paths collected so far.
    pub closed spec fn roots(&self) -> Set<(Seq<u8>, Seq<char>)> {
        self.roots@.dom()
    }

    /// The hashes of the paths that need not be pushed again.
    pub closed spec fn known(&self) -> Set<Seq<char>> {
        self.known_paths@.dom()
    }

    /// A session that has collected nothing and knows nothing.
    pub fn new() -> (r: SessionBatch)
        ensures
            r.roots() == Set::<(Seq<u8>, Seq<char>)>::empty(),
            r.known() == Set::<Seq<char>>::empty(),
    {
        let r = SessionBatch { roots: KeyMap::new(), known_paths: KeyMap::new() };
        proof {
            assert(r.roots() =~= Set::empty());
            assert(r.known() =~= Set::empty());
        }
        r
    }

    fn extend(&mut self, paths: Vec<StorePath>)
        ensures
            final(self).roots() == old(self).roots().union(path_views(paths@)),
            final(self).known() == old(self).known(),
    {
        let ghost all = paths@;
        let ghost views = all.map_values(|p: StorePath| p@);
        proof {
            assert(self.roots() =~= old(self).roots().union(views.take(0).to_set()));
        }
        for path in it: paths
            invariant
                it.seq() == all,
                views == all.map_values(|p: StorePath| p@),
                self.roots() == old(self).roots().union(views.take(it.index()).to_set()),
                self.known() == old(self).known(),
        {
            let ghost i = it.index();
            let ghost before = self.roots();
            let ghost view = path@;
            self.roots.insert(path, ());
            proof {
                assert(views[i] == view);
                assert(views.take(i + 1) =~= views.take(i).push(view));
                assert forall|p: (Seq<u8>, Seq<char>)| #[trigger]
                    views.take(i + 1).to_set().contains(p) <==> views.take(i).to_set().contains(p)
                        || p == view by {
                    if views.take(i).contains(p) {
                        let k = choose|k: int| 0 <= k < i && views.take(i)[k] == p;
                        assert(views.take(i + 1)[k] == p);
                    }
                    assert(views.take(i + 1)[i] == view);
                }
                assert(self.roots() =~= before.insert(view));
                assert(self.roots() =~= old(self).roots().union(views.take(i + 1).to_set()));
            }
        }
        proof {
            assert(views.take(all.len() as int) =~= views);
        }
    }

    /// Takes in what came out of waiting for a command.
    pub fn poll(&mut self, poll: SessionQueuePoll) -> (r: BatchState)
        ensures
            final(self).known() == old(self).known(),
            match poll {
                SessionQueuePoll::Paths(paths) => {
                    &&& r == BatchState::Collecting
                    &&& final(self).roots() == old(self).roots().union(path_views(paths@))
                },
                SessionQueuePoll::Closed | SessionQueuePoll::Terminate => {
                    &&& r == (BatchState::Submit { done: true })
                    &&& final(self).roots() == old(self).roots()
                },
                SessionQueuePoll::Flush | SessionQueuePoll::TimedOut => {
                    &&& r == (BatchState::Submit { done: false })
                    &&& final(self).roots() == old(self).roots()
                },
            },
    {
        match poll {
            SessionQueuePoll::Paths(paths) => {
                self.extend(paths);
                BatchState::Collecting
            },
            SessionQueuePoll::Closed | SessionQueuePoll::Terminate => BatchState::Submit {
                done: true,
            },
            SessionQueuePoll::Flush | SessionQueuePoll::TimedOut => BatchState::Submit {
                done: false,
            },
        }
    }

    /// The batch has been collected for `BATCH_LIMIT_SECONDS`: it is to be pushed as it is, and is
    /// not the last one.
    pub fn limit_reached(&self) -> (r: BatchState)
        ensures
            r == (BatchState::Submit { done: false }),
    {
        BatchState::Submit { done: false }
    }

    /// Takes out the collected paths, without those that are known.
    pub fn take_roots(&mut self) -> (r: Vec<StorePath>)
        ensures
            final(self).roots() == Set::<(Seq<u8>, Seq<char>)>::empty(),
            final(self).known() == old(self).known(),
            r@.map_values(|p: StorePath| p@).no_duplicates(),
            path_views(r@) == unknown_roots(old(self).roots(), old(self).known()),
    {
        let mut roots: KeyMap<StorePath, ()> = KeyMap::new();
        std::mem::swap(&mut roots, &mut self.roots);
        let known_paths = &self.known_paths;
        let ghost known = known_paths@.dom();
        let keep = |path: &StorePath, unit: &()| -> (b: bool)
            ensures
                b == !known_paths@.contains_key(path.hash@),
            {
                !known_paths.contains_key(&path.hash)
            };
        let ghost before = roots@;
        let kept = roots.retain(keep);
        let ghost kept_map = kept@;
        proof {
            assert(known == old(self).known());
            assert(before.dom() == old(self).roots());
            assert forall|p: (Seq<u8>, Seq<char>)|
                kept_map.contains_key(p) <==> before.contains_key(p) && !known.contains(p.1) by {}
            assert(self.roots() =~= Set::empty());
        }
        let entries = kept.into_entries();
        let ghost all = entries@;
        let mut out: Vec<StorePath> = Vec::new();
        for entry in it: entries
            invariant
                it.seq() == all,
                out@.len() == it.index(),
                forall|k: int| 0 <= k < it.index() ==> #[trigger] out@[k] == all[k].0,
        {
            out.push(entry.0);
        }
        proof {
            let views = out@.map_values(|p: StorePath| p@);
            crate::key_map::lemma_map_of(all);
            assert forall|a: int, b: int|
                0 <= a < views.len() && 0 <= b < views.len() && a != b implies views[a]
                != views[b] by {
                assert(out@[a] == all[a].0 && out@[b] == all[b].0);
                if a < b {
                    assert(all[a].0@ != all[b].0@);
                } else {
                    assert(all[b].0@ != all[a].0@);
                }
            }
            assert forall|p: (Seq<u8>, Seq<char>)| #[trigger]
                path_views(out@).contains(p) <==> kept_map.contains_key(p) by {
                if views.contains(p) {
                    let k = choose|k: int| 0 <= k < views.len() && views[k] == p;
                    assert(out@[k] == all[k].0);
                    assert(all[k].0@ == p);
                }
                if kept_map.contains_key(p) {
                    let k = choose|k: int| 0 <= k < all.len() && #[trigger] all[k].0@ == p;
                    assert(out@[k] == all[k].0);
                    assert(views[k] == p);
                }
            }
            assert(path_views(out@) =~= unknown_roots(before.dom(), known));
        }
        out
    }

    /// Takes the paths to push out of a plan: those that are not known. From now on they are, and so
    /// are the paths that are already cached.
    pub fn take_plan(&mut self, plan: PushPlan) -> (r: Vec<(StorePathHash, ValidPathInfo)>)
        ensures
            map_of(r@) == without_known(plan.store_path_map@, old(self).known()),
            distinct_keys(r@),
            final(self).known() == with_plan(old(self).known(), plan),
            final(self).roots() == old(self).roots(),
    {
        let known_paths = &self.known_paths;
        let ghost known = known_paths@.dom();
        let keep = |hash: &StorePathHash, info: &ValidPathInfo| -> (b: bool)
            ensures
                b == !known_paths@.contains_key(hash@),
            {
                !known_paths.contains_key(hash)
            };
        let ghost all = plan.store_path_map@;
        let ghost cached = plan.already_cached@;
        let fresh = plan.store_path_map.retain(keep);
        let ghost fresh_map = fresh@;
        proof {
            assert(fresh_map =~= without_known(all, known));
        }
        let n: usize = fresh.len();
        let ghost pairs = fresh.pairs();
        let mut i: usize = 0;
        proof {
            assert(self.known() =~= known.union(map_of(pairs.take(0)).dom()));
        }
        while i < n
            invariant
                pairs == fresh.pairs(),
                i <= n == pairs.len(),
                self.known() == known.union(map_of(pairs.take(i as int)).dom()),
                self.roots() == old(self).roots(),
            decreases n - i,
        {
            self.known_paths.insert(fresh.entry(i).0.clone(), ());
            proof {
                assert(pairs.take(i + 1).drop_last() =~= pairs.take(i as int));
                assert(self.known() =~= known.union(map_of(pairs.take(i + 1)).dom()));
            }
            i = i + 1;
        }
        proof {
            assert(pairs.take(n as int) =~= pairs);
            assert(self.known() =~= known.union(all.dom()));
            assert(self.known() =~= known.union(all.dom()).union(
                Set::new(|h: Seq<char>| is_listed(cached.take(0), h)),
            ));
        }
        for hash in it: plan.already_cached
            invariant
                it.seq() == cached,
                self.known() == known.union(all.dom()).union(
                    Set::new(|h: Seq<char>| is_listed(cached.take(it.index()), h)),
                ),
                self.roots() == old(self).roots(),
        {
            let ghost i = it.index();
            let ghost view = hash@;
            self.known_paths.insert(hash, ());
            proof {
                lemma_listed_prefix(cached, i);
                assert(self.known() =~= known.union(all.dom()).union(
                    Set::new(|h: Seq<char>| is_listed(cached.take(i + 1), h)),
                ));
            }
        }
        proof {
            assert(cached.take(cached.len() as int) =~= cached);
            assert(self.known() =~= with_plan(known, plan));
        }
        fresh.into_entries()
    }
}

proof fn lemma_listed_prefix(list: Seq<StorePathHash>, i: int)
    requires
        0 <= i < list.len(),
    ensures
        forall|h: Seq<char>| #[trigger]
            is_listed(list.take(i + 1), h) <==> is_listed(list.take(i), h) || h == list[i]@,
{
    assert forall|h: Seq<char>| #[trigger]
        is_listed(list.take(i + 1), h) <==> is_listed(list.take(i), h) || h == list[i]@ by {
        if is_listed(list.take(i), h) {
            let k = choose|k: int| 0 <= k < i && #[trigger] list.take(i)[k]@ == h;
            assert(list.take(i + 1)[k]@ == h);
        }
        if is_listed(list.take(i + 1), h) && h != list[i]@ {
            let k = choose|k: int| 0 <= k < i + 1 && #[trigger] list.take(i + 1)[k]@ == h;
            assert(list.take(i)[k]@ == h);
        }
        assert(list.take(i + 1)[i]@ == list[i]@);
    }
}

/// What is known after the plans of some batches have been taken.
pub open spec fn known_after(known: Set<Seq<char>>, plans: Seq<PushPlan>) -> Set<Seq<char>>
    decreases plans.len(),
{
    if plans.len() == 0 {
        known
    } else {
        with_plan(known_after(known, plans.drop_last()), plans.last())
    }
}

/// The paths that batch `i` pushes, by their hashes.
pub open spec fn pushed_in(known: Set<Seq<char>>, plans: Seq<PushPlan>, i: int) -> Map<
    Seq<char>,
    ValidPathInfo,
> {
    without_known(plans[i].store_path_map@, known_after(known, plans.take(i)))
}

/// The plan says of the path with the hash `h` that it is pushed or already cached.
pub open spec fn settles(plan: PushPlan, h: Seq<char>) -> bool {
    plan.store_path_map@.contains_key(h) || plan.cached().contains(h)
}

proof fn lemma_known_after(known: Set<Seq<char>>, plans: Seq<PushPlan>, h: Seq<char>)
    ensures
        known_after(known, plans).contains(h) <==> known.contains(h) || exists|i: int|
            0 <= i < plans.len() && settles(#[trigger] plans[i], h),
    decreases plans.len(),
{
    if plans.len() > 0 {
        let init = plans.drop_last();
        lemma_known_after(known, init, h);
        if exists|i: int| 0 <= i < plans.len() && settles(#[trigger] plans[i], h) {
            let i = choose|i: int| 0 <= i < plans.len() && settles(#[trigger] plans[i], h);
            if i < init.len() {
                assert(settles(init[i], h));
            }
        }
        if exists|i: int| 0 <= i < init.len() && settles(#[trigger] init[i], h) {
            let i = choose|i: int| 0 <= i < init.len() && settles(#[trigger] init[i], h);
            assert(settles(plans[i], h));
        }
        assert(plans[plans.len() - 1] == plans.last());
    }
}

/// A session never pushes a path twice. The first batch whose plan says anything of a path that was
/// not known at the start pushes it, unless it is already cached.
pub proof fn law_session_pushes_each_path_once(
    known: Set<Seq<char>>,
    plans: Seq<PushPlan>,
    h: Seq<char>,
)
    ensures
        forall|i: int, j: int|
            0 <= i < j < plans.len() ==> !(#[trigger] pushed_in(known, plans, i).contains_key(h)
                && #[trigger] pushed_in(known, plans, j).contains_key(h)),
        forall|i: int|
            0 <= i < plans.len() && !known.contains(h) && (forall|k: int|
                0 <= k < i ==> !settles(#[trigger] plans[k], h)) ==> (#[trigger] pushed_in(
                known,
                plans,
                i,
            ).contains_key(h) <==> plans[i].store_path_map@.contains_key(h)),
{
    assert forall|i: int, j: int| 0 <= i < j < plans.len() implies !(#[trigger] pushed_in(
        known,
        plans,
        i,
    ).contains_key(h) && #[trigger] pushed_in(known, plans, j).contains_key(h)) by {
        if pushed_in(known, plans, i).contains_key(h) {
            lemma_known_after(known, plans.take(j), h);
            assert(settles(plans.take(j)[i], h));
        }
    }
    assert forall|i: int|
        0 <= i < plans.len() && !known.contains(h) && (forall|k: int|
            0 <= k < i ==> !settles(#[trigger] plans[k], h)) implies (#[trigger] pushed_in(
        known,
        plans,
        i,
    ).contains_key(h) <==> plans[i].store_path_map@.contains_key(h)) by {
        lemma_known_after(known, plans.take(i), h);
        if known_after(known, plans.take(i)).contains(h) {
            let k = choose|k: int| 0 <= k < i && settles(#[trigger] plans.take(i)[k], h);
            assert(settles(plans[k], h));
        }
    }
}

/// Once a plan has said of a path that it is pushed or that it exists on the remote cache, the
/// session knows the path: however often it is queued afterwards, it is neither planned nor pushed
/// again.
pub proof fn law_session_remembers_remote_paths(
    known: Set<Seq<char>>,
    plans: Seq<PushPlan>,
    i: int,
    j: int,
    roots: Set<(Seq<u8>, Seq<char>)>,
    path: (Seq<u8>, Seq<char>),
)
    requires
        0 <= i < j <= plans.len(),
        settles(plans[i], path.1),
    ensures
        known_after(known, plans.take(j)).contains(path.1),
        !unknown_roots(roots, known_after(known, plans.take(j))).contains(path),
        j < plans.len() ==> !pushed_in(known, plans, j).contains_key(path.1),
{
    lemma_known_after(known, plans.take(j), path.1);
    assert(settles(plans.take(j)[i], path.1));
}

/// A batch takes in every path that is queued, and keeps what it has. It is pushed when it is flushed,
/// when nothing more comes for a while, and for the last time when the session is told to end or its
/// owner is gone.
pub proof fn law_batch_takes_in_every_queued_path(
    batch: &mut SessionBatch,
    command: Option<SessionQueueCommand>,
    poll: SessionQueuePoll,
    r: BatchState,
    path: (Seq<u8>, Seq<char>),
)
    requires
        call_ensures(SessionBatch::poll, (batch, poll), r),
    ensures
        final(batch).known() == old(batch).known(),
        final(batch).roots().contains(path) <==> old(batch).roots().contains(path) || (
        poll matches SessionQueuePoll::Paths(paths) && exists|i: int|
            0 <= i < paths@.len() && (#[trigger] paths@[i]).base_name@ == path.0
                && paths@[i].hash@ == path.1),
        r is Collecting <==> poll is Paths,
        r == (BatchState::Submit { done: true }) <==> poll is Closed || poll is Terminate,
        call_ensures(SessionQueuePoll::from_command, (command,), poll) ==> {
            &&& command is None <==> poll is Closed
            &&& command == Some(SessionQueueCommand::Terminate) <==> poll is Terminate
            &&& command == Some(SessionQueueCommand::Flush) <==> poll is Flush
            &&& command matches Some(SessionQueueCommand::Paths(paths)) ==> poll
                == SessionQueuePoll::Paths(paths)
        },
{
    if let SessionQueuePoll::Paths(paths) = poll {
        lemma_path_views(paths@, path);
    }
}

proof fn lemma_path_views(paths: Seq<StorePath>, path: (Seq<u8>, Seq<char>))
    ensures
        path_views(paths).contains(path) <==> exists|i: int|
            0 <= i < paths.len() && (#[trigger] paths[i]).base_name@ == path.0 && paths[i].hash@
                == path.1,
{
    let views = paths.map_values(|p: StorePath| p@);
    if path_views(paths).contains(path) {
        assert(views.contains(path));
        let i = choose|i: int| 0 <= i < views.len() && views[i] == path;
        assert(paths[i].base_name@ == path.0 && paths[i].hash@ == path.1);
    }
    if exists|i: int|
        0 <= i < paths.len() && (#[trigger] paths[i]).base_name@ == path.0 && paths[i].hash@ == path.1 {
        let i = choose|i: int|
            0 <= i < paths.len() && (#[trigger] paths[i]).base_name@ == path.0 && paths[i].hash@
                == path.1;
        assert(views[i] == path);
        assert(views.contains(path));
    }
}

/// What is taken out of a batch is each collected path whose hash the session does not know, once.
/// Nothing stays behind.
pub proof fn law_batch_hands_out_what_is_not_known(
    batch: &mut SessionBatch,
    r: Vec<StorePath>,
    path: (Seq<u8>, Seq<char>),
)
    requires
        call_ensures(SessionBatch::take_roots, (batch,), r),
    ensures
        (exists|i: int|
            0 <= i < r@.len() && (#[trigger] r@[i]).base_name@ == path.0 && r@[i].hash@ == path.1)
            <==> old(batch).roots().contains(path) && !old(batch).known().contains(path.1),
        forall|i: int, j: int|
            0 <= i < j < r@.len() ==> (#[trigger] r@[i])@ != (#[trigger] r@[j])@,
        !final(batch).roots().contains(path),
        final(batch).known() == old(batch).known(),
{
    lemma_path_views(r@, path);
    let views = r@.map_values(|p: StorePath| p@);
    assert forall|i: int, j: int| 0 <= i < j < r@.len() implies (#[trigger] r@[i])@ != (
    #[trigger] r@[j])@ by {
        assert(views[i] == r@[i]@ && views[j] == r@[j]@);
    }
}

/// Of a plan, those paths are pushed that the session does not know, each once and with what the plan
/// says of it. From then on the session knows all paths of the plan, pushed or already cached, and
/// forgets none.
pub proof fn law_batch_pushes_what_is_not_known(
    batch: &mut SessionBatch,
    plan: PushPlan,
    r: Vec<(StorePathHash, ValidPathInfo)>,
    h: Seq<char>,
)
    requires
        call_ensures(SessionBatch::take_plan, (batch, plan), r),
    ensures
        (exists|i: int| 0 <= i < r@.len() && (#[trigger] r@[i]).0@ == h)
            <==> plan.store_path_map@.contains_key(h) && !old(batch).known().contains(h),
        forall|i: int|
            0 <= i < r@.len() ==> plan.store_path_map@.contains_key((#[trigger] r@[i]).0@)
                && r@[i].1 == plan.store_path_map@[r@[i].0@],
        forall|i: int, j: int|
            0 <= i < j < r@.len() ==> (#[trigger] r@[i]).0@ != (#[trigger] r@[j]).0@,
        final(batch).known().contains(h) <==> {
            ||| old(batch).known().contains(h)
            ||| plan.store_path_map@.contains_key(h)
            ||| exists|j: int|
                0 <= j < plan.already_cached@.len() && (#[trigger] plan.already_cached@[j])@ == h
        },
        final(batch).roots() == old(batch).roots(),
{
    lemma_map_of(r@);
    let kept = map_of(r@);
    if kept.contains_key(h) {
        let i = choose|i: int| 0 <= i < r@.len() && #[trigger] r@[i].0@ == h;
        assert(r@[i].0@ == h);
    }
    if exists|i: int| 0 <= i < r@.len() && (#[trigger] r@[i]).0@ == h {
        let i = choose|i: int| 0 <= i < r@.len() && (#[trigger] r@[i]).0@ == h;
        assert(r@[i].0@ == h);
    }
    assert forall|i: int| 0 <= i < r@.len() implies plan.store_path_map@.contains_key(
        (#[trigger] r@[i]).0@,
    ) && r@[i].1 == plan.store_path_map@[r@[i].0@] by {
        assert(kept.contains_key(r@[i].0@));
        assert(kept[r@[i].0@] == r@[i].1);
    }
    assert forall|i: int, j: int| 0 <= i < j < r@.len() implies (#[trigger] r@[i]).0@ != (
    #[trigger] r@[j]).0@ by {
        assert(r@[i].0@ != r@[j].0@);
    }
    if is_listed(plan.already_cached@, h) {
        let j = choose|j: int|
            0 <= j < plan.already_cached@.len() && #[trigger] plan.already_cached@[j]@ == h;
        assert(plan.already_cached@[j]@ == h);
    }
    if exists|j: int|
        0 <= j < plan.already_cached@.len() && (#[trigger] plan.already_cached@[j])@ == h {
        let j = choose|j: int|
            0 <= j < plan.already_cached@.len() && (#[trigger] plan.already_cached@[j])@ == h;
        assert(plan.already_cached@[j]@ == h);
        assert(is_listed(plan.already_cached@, h));
    }
}

} // verus!
