//! Fetching a list of repositories in chunks, one query each.
//!
//! The answers come in whatever order. Each repository's result goes to the slot of its position
//! in the list; what has more items than a query asks for, and what is a fork, is asked for again
//! in another way before the slots are read.
use vstd::prelude::*;
use vstd::string::*;

use crate::github::{
    cache_view, describe_api_error, failure_message, plan_for, repo_parts, split_repo, ApiFailure,
    ForkCache, PlanView, SubscribedItems,
};
use crate::graphql::{
    all_failed, all_searches_failed, effective_fork_parent, effective_parent, error_for_all,
    fork_view, parse_envelope, parse_search_envelope, parsed, search_error_for_all, search_parsed,
    tagged, ChunkItem, ChunkView, ForkTarget, GraphQlEnvelope, SearchEnvelope, ValidRepo,
    CHUNK_SIZE,
};
use crate::laws::batch::{chunk_says, forks_say, replies_are_read, searches_are_read};
use crate::model::{ErrorView, RepoError, RepoResult, RepoStatus, ResultView, StatusView, Timestamp};
use crate::schedule::{
    empty_slots, fill, filled, results_follow_the_list, settled, slot_view, slot_views, well_named,
    Window,
};
use crate::text::{texts, views};

verus! {

broadcast use {vstd::string::group_string_axioms, vstd::std_specs::hash::group_hash_axioms};

/// What came of a query.
#[derive(Debug)]
pub enum Reply<T> {
    Answer(T),
    Failed(ApiFailure),
    TimedOut,
}

/// What a reply says of each repository of a chunk.
pub open spec fn replied(
    chunk: Seq<ValidRepo>,
    reply: Reply<GraphQlEnvelope>,
    subscribed: Option<&SubscribedItems>,
) -> Seq<ChunkView> {
    match reply {
        Reply::Answer(envelope) => parsed(chunk, envelope, subscribed),
        Reply::Failed(e) => all_failed(chunk, ErrorView::Api(failure_message(e@))),
        Reply::TimedOut => all_failed(chunk, ErrorView::Timeout),
    }
}

/// What a reply says of each repository of a chunk.
pub fn chunk_outcome(
    chunk: &[ValidRepo],
    reply: Reply<GraphQlEnvelope>,
    subscribed: Option<&SubscribedItems>,
) -> (res: Vec<ChunkItem>)
    ensures
        views(res@) == replied(chunk@, reply, subscribed),
        chunk_says(views(res@), chunk@, reply, subscribed),
{
    proof {
        replies_are_read(chunk@, reply, subscribed);
    }
    match reply {
        Reply::Answer(envelope) => parse_envelope(chunk, envelope, subscribed),
        Reply::Failed(e) => error_for_all(chunk, RepoError::Api(describe_api_error(&e))),
        Reply::TimedOut => error_for_all(chunk, RepoError::Timeout),
    }
}

/// What a reply says of each fork of a chunk.
pub open spec fn search_replied(
    chunk: Seq<(usize, &ForkTarget)>,
    reply: Reply<SearchEnvelope>,
    clocks: Seq<Seq<Timestamp>>,
) -> Seq<(usize, ResultView)> {
    match reply {
        Reply::Answer(envelope) => search_parsed(chunk, envelope, clocks),
        Reply::Failed(e) => all_searches_failed(chunk, ErrorView::Api(failure_message(e@))),
        Reply::TimedOut => all_searches_failed(chunk, ErrorView::Timeout),
    }
}

/// What a reply says of each fork of a chunk.
pub fn fork_chunk_outcome(chunk: &[(usize, &ForkTarget)], reply: Reply<SearchEnvelope>) -> (res: Vec<
    (usize, RepoResult),
>)
    ensures
        exists|clocks: Seq<Seq<Timestamp>>|
            tagged(res@) == #[trigger] search_replied(chunk@, reply, clocks),
        forks_say(tagged(res@), chunk@, reply),
{
    proof {
        assert forall|clocks: Seq<Seq<Timestamp>>|
            forks_say(#[trigger] search_replied(chunk@, reply, clocks), chunk@, reply) by {
            searches_are_read(chunk@, reply, clocks);
        }
    }
    match reply {
        Reply::Answer(envelope) => {
            let res = parse_search_envelope(chunk, envelope);
            proof {
                let clocks = choose|clocks: Seq<Seq<Timestamp>>|
                    tagged(res@) == #[trigger] search_parsed(chunk@, envelope, clocks);
                assert(tagged(res@) == search_replied(chunk@, reply, clocks));
            }
            res
        },
        Reply::Failed(e) => {
            let res = search_error_for_all(chunk, RepoError::Api(describe_api_error(&e)));
            assert(tagged(res@) == search_replied(chunk@, reply, Seq::empty()));
            res
        },
        Reply::TimedOut => {
            let res = search_error_for_all(chunk, RepoError::Timeout);
            assert(tagged(res@) == search_replied(chunk@, reply, Seq::empty()));
            res
        },
    }
}

/// What a `ValidRepo` says.
pub struct ValidView {
    pub original_index: usize,
    pub repo: Seq<char>,
    pub owner: Seq<char>,
    pub name: Seq<char>,
}

impl View for ValidRepo {
    type V = ValidView;

    open spec fn view(&self) -> ValidView {
        ValidView {
            original_index: self.original_index,
            repo: self.repo@,
            owner: self.owner@,
            name: self.name@,
        }
    }
}

/// What a `ForkTarget` says.
pub struct TargetView {
    pub original_index: usize,
    pub repo: Seq<char>,
    pub parent: Seq<char>,
    pub fork_owner: Seq<char>,
}

impl View for ForkTarget {
    type V = TargetView;

    open spec fn view(&self) -> TargetView {
        TargetView {
            original_index: self.original_index,
            repo: self.repo@,
            parent: self.parent@,
            fork_owner: self.fork_owner@,
        }
    }
}

/// The repositories of a list whose names have an owner and a name.
pub open spec fn valid_repos(repos: Seq<Seq<char>>) -> Seq<ValidView>
    decreases repos.len(),
{
    if repos.len() == 0 {
        Seq::empty()
    } else {
        let head = valid_repos(repos.drop_last());
        match repo_parts(repos.last()) {
            Some((owner, name)) => head.push(
                ValidView {
                    original_index: (repos.len() - 1) as usize,
                    repo: repos.last(),
                    owner,
                    name,
                },
            ),
            None => head,
        }
    }
}

/// The result of what is not there.
pub open spec fn absent_view(repo: Seq<char>) -> ResultView {
    ResultView { repo, status: StatusView::NotFound, upstream: None }
}

/// What is known of each repository of a list before anything was asked: those whose names name
/// none are absent.
pub open spec fn first_slots(repos: Seq<Seq<char>>) -> Seq<Option<ResultView>> {
    repos.map_values(
        |repo: Seq<char>|
            if repo_parts(repo) is None {
                Some(absent_view(repo))
            } else {
                None
            },
    )
}

/// How many chunks `n` repositories make.
pub open spec fn chunk_count(n: nat) -> nat {
    (n + CHUNK_SIZE - 1) as nat / CHUNK_SIZE as nat
}

/// Chunk `k` of a list.
pub open spec fn chunk_of<T>(all: Seq<T>, k: nat) -> Seq<T> {
    let start = k * CHUNK_SIZE as nat;
    all.subrange(
        start as int,
        if start + CHUNK_SIZE < all.len() {
            start + CHUNK_SIZE
        } else {
            all.len() as int
        },
    )
}

/// Every member of a list stands in one chunk, and no chunk is empty or too large.
pub proof fn chunks_hold_everything<T>(all: Seq<T>)
    ensures
        forall|p: int|
            #![trigger all[p]]
            0 <= p < all.len() ==> {
                let k = (p / (CHUNK_SIZE as int)) as nat;
                &&& k < chunk_count(all.len())
                &&& p % (CHUNK_SIZE as int) < chunk_of(all, k).len()
                &&& chunk_of(all, k)[p % (CHUNK_SIZE as int)] == all[p]
            },
        forall|k: nat|
            k < chunk_count(all.len()) ==> 0 < (#[trigger] chunk_of(all, k)).len() <= CHUNK_SIZE,
{
}

/// How far a fetch in chunks has come.
pub struct BatchView {
    /// What is known of each repository.
    pub slots: Seq<Option<ResultView>>,
    /// The repositories with more items than a query asks for, with their positions.
    pub overflow: Seq<(usize, Seq<char>)>,
    /// The forks whose items at the upstream are to be searched.
    pub targets: Seq<TargetView>,
    /// What was found out of forks.
    pub cache: Map<Seq<char>, Seq<char>>,
}

/// The manual entry on a repository's upstream.
pub open spec fn manual_entry(overrides: Map<Seq<char>, Seq<char>>, repo: Seq<char>) -> Option<
    Seq<char>,
> {
    if overrides.contains_key(repo) {
        Some(overrides[repo])
    } else {
        None
    }
}

/// What is to be remembered of a repository's upstream: the manual entry, else what was told.
pub open spec fn cache_entry(overrides: Map<Seq<char>, Seq<char>>, item: ChunkView) -> Seq<char> {
    match manual_entry(overrides, item.repo) {
        Some(value) => value,
        None => match item.fork_parent {
            Some(parent) => parent,
            None => Seq::empty(),
        },
    }
}

/// The upstream whose items are shown in place of a repository's own.
pub open spec fn shown_parent(overrides: Map<Seq<char>, Seq<char>>, item: ChunkView) -> Option<
    Seq<char>,
> {
    effective_parent(manual_entry(overrides, item.repo), item.fork_parent)
}

/// The search that a fork needs.
pub open spec fn target_of(item: ChunkView, parent: Seq<char>) -> TargetView {
    TargetView {
        original_index: item.original_index,
        repo: item.repo,
        parent,
        fork_owner: match repo_parts(item.repo) {
            Some((owner, _)) => owner,
            None => Seq::empty(),
        },
    }
}

/// The result of a repository that a query answered.
pub open spec fn result_of(item: ChunkView) -> ResultView {
    ResultView { repo: item.repo, status: item.status, upstream: None }
}

/// The state once one repository's answer was taken in.
pub open spec fn absorbed(
    state: BatchView,
    item: ChunkView,
    overrides: Map<Seq<char>, Seq<char>>,
) -> BatchView {
    let cache = if item.status is Items {
        state.cache.insert(item.repo, cache_entry(overrides, item))
    } else {
        state.cache
    };
    match shown_parent(overrides, item) {
        Some(parent) => BatchView {
            targets: state.targets.push(target_of(item, parent)),
            cache,
            ..state
        },
        None => BatchView {
            slots: state.slots.update(item.original_index as int, Some(result_of(item))),
            overflow: if item.needs_fallback {
                state.overflow.push((item.original_index, item.repo))
            } else {
                state.overflow
            },
            cache,
            ..state
        },
    }
}

/// The state once the answers `items` were taken in, one after the other.
pub open spec fn absorbed_all(
    state: BatchView,
    items: Seq<ChunkView>,
    overrides: Map<Seq<char>, Seq<char>>,
) -> BatchView
    decreases items.len(),
{
    if items.len() == 0 {
        state
    } else {
        absorbed(absorbed_all(state, items.drop_last(), overrides), items.last(), overrides)
    }
}

/// `slots` with the first `n` of `results` put at the positions `at`.
pub open spec fn placed(
    slots: Seq<Option<ResultView>>,
    at: Seq<usize>,
    results: Seq<ResultView>,
    n: nat,
) -> Seq<Option<ResultView>>
    decreases n,
{
    if n == 0 {
        slots
    } else {
        placed(slots, at, results, (n - 1) as nat).update(
            at[n - 1] as int,
            Some(results[n - 1]),
        )
    }
}

/// How many of two lists go together in pairs.
pub open spec fn pairs(a: nat, b: nat) -> nat {
    if a < b {
        a
    } else {
        b
    }
}

fn place(slots: &mut Vec<Option<RepoResult>>, at: &Vec<usize>, results: Vec<RepoResult>)
    requires
        forall|k: int| 0 <= k < at@.len() ==> (#[trigger] at@[k]) < old(slots)@.len(),
    ensures
        final(slots)@.len() == old(slots)@.len(),
        slot_views(final(slots)@) == placed(
            slot_views(old(slots)@),
            at@,
            views(results@),
            pairs(at@.len(), results@.len()),
        ),
{
    let ghost first = slot_views(slots@);
    let ghost all = views(results@);
    let mut i: usize = 0;
    for result in it: results
        invariant
            i == pairs(at@.len(), it.index() as nat),
            it.seq() == results@,
            all == views(results@),
            slots@.len() == first.len(),
            forall|k: int| 0 <= k < at@.len() ==> (#[trigger] at@[k]) < slots@.len(),
            slot_views(slots@) == placed(first, at@, all, i as nat),
    {
        if i < at.len() {
            let ghost had = slots@;
            assert(all[i as int] == result@);
            slots.set(at[i], Some(result));
            assert(slot_views(slots@) =~= slot_views(had).update(
                at@[i as int] as int,
                Some(all[i as int]),
            ));
            i = i + 1;
        }
    }
}

/// A list of repositories being fetched in chunks.
#[derive(Debug)]
pub struct Batch {
    repos: Vec<String>,
    valid: Vec<ValidRepo>,
    slots: Vec<Option<RepoResult>>,
    overflow_at: Vec<usize>,
    overflow_repos: Vec<String>,
    targets: Vec<ForkTarget>,
    cache: ForkCache,
    window: Window,
}

/// Two lists of the same length as a list of pairs.
pub open spec fn zipped(at: Seq<usize>, repos: Seq<Seq<char>>) -> Seq<(usize, Seq<char>)> {
    Seq::new(at.len(), |i: int| (at[i], repos[i]))
}

/// The positions in a list of pairs.
pub open spec fn positions(overflow: Seq<(usize, Seq<char>)>) -> Seq<usize> {
    overflow.map_values(|entry: (usize, Seq<char>)| entry.0)
}

/// The positions of forks.
pub open spec fn target_positions(targets: Seq<TargetView>) -> Seq<usize> {
    targets.map_values(|target: TargetView| target.original_index)
}

/// Whether what names no repository is absent.
pub open spec fn absences_stand(slots: Seq<Option<ResultView>>, repos: Seq<Seq<char>>) -> bool {
    forall|i: int|
        0 <= i < repos.len() && repo_parts(repos[i]) is None ==> #[trigger] slots[i] == Some(
            absent_view(repos[i]),
        )
}

/// Whether what is noted for another round goes by the names of the repositories at its
/// positions.
pub open spec fn noted_by_name(state: BatchView, repos: Seq<Seq<char>>) -> bool {
    &&& forall|k: int|
        0 <= k < state.overflow.len() ==> (#[trigger] state.overflow[k]).0 < repos.len()
            && state.overflow[k].1 == repos[state.overflow[k].0 as int] && repo_parts(
            state.overflow[k].1,
        ) is Some
    &&& forall|k: int|
        0 <= k < state.targets.len() ==> (#[trigger] state.targets[k]).original_index < repos.len()
            && state.targets[k].repo == repos[state.targets[k].original_index as int] && repo_parts(
            state.targets[k].repo,
        ) is Some
}

impl Batch {
    /// The names of the repositories.
    pub closed spec fn repos(&self) -> Seq<Seq<char>> {
        texts(self.repos@)
    }

    /// The repositories that are asked about.
    pub closed spec fn valid(&self) -> Seq<ValidRepo> {
        self.valid@
    }

    /// The forks whose items at the upstream are to be searched.
    pub closed spec fn targets(&self) -> Seq<ForkTarget> {
        self.targets@
    }

    /// How far the fetch has come.
    pub closed spec fn state(&self) -> BatchView {
        BatchView {
            slots: slot_views(self.slots@),
            overflow: zipped(self.overflow_at@, texts(self.overflow_repos@)),
            targets: views(self.targets@),
            cache: cache_view(self.cache@),
        }
    }

    /// Which chunks are being asked about.
    pub closed spec fn window(&self) -> Window {
        self.window
    }

    /// Whether each repository to be fetched whole has a position.
    pub closed spec fn paired(&self) -> bool {
        self.overflow_at@.len() == self.overflow_repos@.len()
    }

    /// Whether there is a slot for each repository, which holds no other repository's result, what
    /// names no repository is absent, everything asked and noted goes by the name of the
    /// repository at its position, and the bound on queries is kept.
    pub open spec fn wf(&self) -> bool {
        &&& self.window().wf()
        &&& self.window().total() == chunk_count(self.valid().len())
        &&& self.paired()
        &&& well_named(self.state().slots, self.repos())
        &&& absences_stand(self.state().slots, self.repos())
        &&& noted_by_name(self.state(), self.repos())
        &&& forall|k: int|
            0 <= k < self.valid().len() ==> (#[trigger] self.valid()[k]).original_index
                < self.repos().len() && self.valid()[k].repo@
                == self.repos()[self.valid()[k].original_index as int] && repo_parts(
                self.valid()[k].repo@,
            ) is Some
    }

    /// Nothing asked yet.
    pub fn new(repos: Vec<String>) -> (res: Self)
        ensures
            res.wf(),
            res.repos() == texts(repos@),
            views(res.valid()) == valid_repos(texts(repos@)),
            res.state() == (BatchView {
                slots: first_slots(texts(repos@)),
                overflow: Seq::empty(),
                targets: Seq::empty(),
                cache: Map::empty(),
            }),
            res.window().total() == chunk_count(res.valid().len()),
            res.window().started() == 0,
            res.window().in_flight() == 0,
    {
        let mut valid: Vec<ValidRepo> = Vec::new();
        let mut slots: Vec<Option<RepoResult>> = Vec::new();
        let mut i: usize = 0;
        let ghost names = texts(repos@);
        assert(names.take(0) =~= Seq::empty());
        assert(views(valid@) =~= Seq::empty());
        while i < repos.len()
            invariant
                i <= repos@.len(),
                names == texts(repos@),
                valid@.len() <= i,
                forall|k: int|
                    0 <= k < valid@.len() ==> (#[trigger] valid@[k]).original_index < i
                        && valid@[k].repo@ == names[valid@[k].original_index as int]
                        && repo_parts(valid@[k].repo@) is Some,
                slots@.len() == i,
                views(valid@) == valid_repos(names.take(i as int)),
                forall|k: int|
                    0 <= k < i ==> slot_view(#[trigger] slots@[k]) == first_slots(names)[k],
            decreases repos@.len() - i,
        {
            let ghost next = names.take(i + 1);
            assert(next.drop_last() =~= names.take(i as int));
            assert(next.last() == repos@[i as int]@);
            let ghost had = views(valid@);
            match split_repo(repos[i].as_str()) {
                Some((owner, name)) => {
                    let entry = ValidRepo {
                        original_index: i,
                        repo: repos[i].clone(),
                        owner: owner.to_owned(),
                        name: name.to_owned(),
                    };
                    valid.push(entry);
                    assert(views(valid@) =~= had.push(entry@));
                    slots.push(None);
                },
                None => {
                    slots.push(
                        Some(RepoResult::new(repos[i].clone(), RepoStatus::NotFound)),
                    );
                },
            }
            i = i + 1;
        }
        assert(names.take(i as int) =~= names);
        assert(slot_views(slots@) =~= first_slots(names));
        let chunks = if valid.len() == 0 {
            0
        } else {
            (valid.len() - 1) / CHUNK_SIZE + 1
        };
        let window = Window::new(chunks);
        let res = Batch {
            repos,
            valid,
            slots,
            overflow_at: Vec::new(),
            overflow_repos: Vec::new(),
            targets: Vec::new(),
            cache: ForkCache::new(),
            window,
        };
        assert(res.state().overflow =~= Seq::empty());
        assert(res.state().targets =~= Seq::empty());
        assert(res.state().cache =~= Map::empty());
        proof {
            first_slots_are_well_named(names);
        }
        res
    }

    /// The number of the next chunk to ask about, where the bound allows one.
    pub fn next_chunk(&mut self) -> (res: Option<usize>)
        requires
            old(self).wf(),
        ensures
            final(self).wf(),
            final(self).repos() == old(self).repos(),
            final(self).valid() == old(self).valid(),
            final(self).state() == old(self).state(),
            match res {
                Some(k) => {
                    &&& k == old(self).window().started() < chunk_count(old(self).valid().len())
                    &&& final(self).window().started() == old(self).window().started() + 1
                    &&& final(self).window().in_flight() == old(self).window().in_flight() + 1
                },
                None => {
                    &&& old(self).window().started() == chunk_count(old(self).valid().len())
                        || old(self).window().in_flight() == crate::schedule::MAX_IN_FLIGHT
                    &&& final(self).window() == old(self).window()
                },
            },
    {
        self.window.start()
    }

    /// The repositories of chunk `k`.
    pub fn chunk(&self, k: usize) -> (res: &[ValidRepo])
        requires
            self.wf(),
            k < chunk_count(self.valid().len()),
        ensures
            res@ == chunk_of(self.valid(), k as nat),
    {
        let all = self.valid.len();
        assert(k * CHUNK_SIZE < all);
        let start = k * CHUNK_SIZE;
        let end = if all - start > CHUNK_SIZE {
            start + CHUNK_SIZE
        } else {
            all
        };
        vstd::slice::slice_subrange(self.valid.as_slice(), start, end)
    }

    /// Whether nothing is being asked.
    pub fn is_idle(&self) -> (res: bool)
        ensures
            res == (self.window().in_flight() == 0),
    {
        self.window.is_idle()
    }

    fn absorb(&mut self, item: ChunkItem, overrides: &ForkCache)
        requires
            old(self).wf(),
            item.original_index < old(self).repos().len(),
            item.repo@ == old(self).repos()[item.original_index as int],
            repo_parts(item.repo@) is Some,
        ensures
            final(self).wf(),
            final(self).repos() == old(self).repos(),
            final(self).valid() == old(self).valid(),
            final(self).window() == old(self).window(),
            final(self).state() == absorbed(old(self).state(), item@, cache_view(overrides@)),
    {
        let ghost had = *self;
        let ghost manuals = cache_view(overrides@);
        let manual = overrides.get(item.repo.as_str());
        if let RepoStatus::Items(_) = &item.status {
            let value = match manual {
                Some(value) => value.clone(),
                None => match &item.fork_parent {
                    Some(parent) => parent.clone(),
                    None => String::new(),
                },
            };
            assert(value@ =~= cache_entry(manuals, item@));
            self.cache.insert(item.repo.clone(), value);
            assert(cache_view(self.cache@) =~= cache_view(had.cache@).insert(
                item.repo@,
                cache_entry(manuals, item@),
            ));
        }
        match effective_fork_parent(manual, item.fork_parent) {
            Some(parent) => {
                let fork_owner = match split_repo(item.repo.as_str()) {
                    Some((owner, _)) => owner.to_owned(),
                    None => String::new(),
                };
                let target = ForkTarget {
                    original_index: item.original_index,
                    repo: item.repo,
                    parent,
                    fork_owner,
                };
                assert(target.fork_owner@ =~= target_of(item@, parent@).fork_owner);
                self.targets.push(target);
                assert(views(self.targets@) =~= views(had.targets@).push(target@));
            },
            None => {
                if item.needs_fallback {
                    self.overflow_at.push(item.original_index);
                    self.overflow_repos.push(item.repo.clone());
                    assert(self.state().overflow =~= had.state().overflow.push(
                        (item.original_index, item.repo@),
                    ));
                }
                let index = item.original_index;
                let result = RepoResult::new(item.repo, item.status);
                self.slots.set(index, Some(result));
                assert(slot_views(self.slots@) =~= slot_views(had.slots@).update(
                    index as int,
                    Some(result_of(item@)),
                ));
            },
        }
        proof {
            assert(self.state() == absorbed(had.state(), item@, manuals));
            absorbing_keeps_names(had.state(), item@, manuals, had.repos());
        }
    }

    /// Takes in what a chunk's reply says.
    pub fn on_chunk(&mut self, items: Vec<ChunkItem>, overrides: &ForkCache)
        requires
            old(self).wf(),
            old(self).window().in_flight() > 0,
            forall|k: int|
                0 <= k < items@.len() ==> (#[trigger] items@[k]).original_index
                    < old(self).repos().len() && items@[k].repo@ == old(
                    self,
                ).repos()[items@[k].original_index as int] && repo_parts(items@[k].repo@) is Some,
        ensures
            final(self).wf(),
            final(self).repos() == old(self).repos(),
            final(self).valid() == old(self).valid(),
            final(self).state() == absorbed_all(
                old(self).state(),
                views(items@),
                cache_view(overrides@),
            ),
            final(self).window().started() == old(self).window().started(),
            final(self).window().in_flight() == old(self).window().in_flight() - 1,
    {
        let ghost first = *self;
        let ghost all = views(items@);
        self.window.finish_one();
        let ghost window = self.window;
        assert(all.take(0) =~= Seq::empty());
        for item in it: items
            invariant
                it.seq() == items@,
                all == views(items@),
                self.wf(),
                self.repos() == first.repos(),
                self.valid() == first.valid(),
                self.window() == window,
                self.state() == absorbed_all(
                    first.state(),
                    all.take(it.index() as int),
                    cache_view(overrides@),
                ),
                forall|k: int|
                    0 <= k < items@.len() ==> (#[trigger] items@[k]).original_index
                        < first.repos().len() && items@[k].repo@
                        == first.repos()[items@[k].original_index as int] && repo_parts(
                        items@[k].repo@,
                    ) is Some,
        {
            let ghost next = all.take(it.index() + 1);
            assert(next.drop_last() =~= all.take(it.index() as int));
            assert(next.last() == item@);
            assert(items@[it.index() as int] == item);
            self.absorb(item, overrides);
        }
        assert(all.take(all.len() as int) =~= all);
    }

    /// Takes in the reply about chunk `k`.
    pub fn on_reply(
        &mut self,
        k: usize,
        reply: Reply<GraphQlEnvelope>,
        subscribed: Option<&SubscribedItems>,
        overrides: &ForkCache,
    )
        requires
            old(self).wf(),
            old(self).window().in_flight() > 0,
            k < chunk_count(old(self).valid().len()),
        ensures
            final(self).wf(),
            final(self).repos() == old(self).repos(),
            final(self).valid() == old(self).valid(),
            final(self).state() == absorbed_all(
                old(self).state(),
                replied(chunk_of(old(self).valid(), k as nat), reply, subscribed),
                cache_view(overrides@),
            ),
            exists|said: Seq<ChunkView>|
                chunk_says(said, chunk_of(old(self).valid(), k as nat), reply, subscribed)
                    && final(self).state() == #[trigger] absorbed_all(
                    old(self).state(),
                    said,
                    cache_view(overrides@),
                ),
            final(self).window().started() == old(self).window().started(),
            final(self).window().in_flight() == old(self).window().in_flight() - 1,
    {
        let ghost chunk = chunk_of(self.valid@, k as nat);
        let items = chunk_outcome(self.chunk(k), reply, subscribed);
        proof {
            replies_speak_of_their_repos(chunk, reply, subscribed);
            replies_are_read(chunk, reply, subscribed);
            assert forall|i: int| 0 <= i < items@.len() implies (
            #[trigger] items@[i]).original_index < self.repos().len() && items@[i].repo@
                == self.repos()[items@[i].original_index as int] && repo_parts(
                items@[i].repo@,
            ) is Some by {
                let said = views(items@)[i];
                assert(said.original_index == chunk[i].original_index);
                assert(said.repo == chunk[i].repo@);
                assert(chunk[i] == self.valid()[k * CHUNK_SIZE + i]);
            }
        }
        self.on_chunk(items, overrides);
    }

    /// The repositories to be fetched whole, one by one.
    pub fn overflow_repos(&self) -> (res: Vec<String>)
        requires
            self.wf(),
        ensures
            texts(res@) == self.state().overflow.map_values(
                |entry: (usize, Seq<char>)| entry.1,
            ),
    {
        let mut res: Vec<String> = Vec::new();
        let mut i: usize = 0;
        while i < self.overflow_repos.len()
            invariant
                i <= self.overflow_repos@.len(),
                res@.len() == i,
                forall|k: int| 0 <= k < i ==> (#[trigger] res@[k])@ == self.overflow_repos@[k]@,
            decreases self.overflow_repos@.len() - i,
        {
            res.push(self.overflow_repos[i].clone());
            i = i + 1;
        }
        assert(texts(res@) =~= self.state().overflow.map_values(
            |entry: (usize, Seq<char>)| entry.1,
        ));
        res
    }

    /// What is known of the repositories to be fetched whole: that none of them is a fork.
    pub fn overflow_forks(&self) -> (res: ForkCache)
        requires
            self.wf(),
        ensures
            forall|repo: Seq<char>| #[trigger]
                cache_view(res@).contains_key(repo) == exists|i: int|
                    0 <= i < self.state().overflow.len() && (#[trigger] self.state().overflow[i]).1
                        == repo,
            forall|repo: Seq<char>|
                cache_view(res@).contains_key(repo) ==> #[trigger] cache_view(res@)[repo]
                    == Seq::<char>::empty(),
            forall|k: int|
                0 <= k < self.state().overflow.len() ==> plan_for(
                    (#[trigger] self.state().overflow[k]).1,
                    cache_view(res@),
                ) is Own,
    {
        let mut res = ForkCache::new();
        let mut i: usize = 0;
        while i < self.overflow_repos.len()
            invariant
                i <= self.overflow_repos@.len(),
                forall|repo: Seq<char>| #[trigger]
                    res@.contains_key(repo) == exists|k: int|
                        0 <= k < i && (#[trigger] self.overflow_repos@[k])@ == repo,
                forall|repo: Seq<char>|
                    res@.contains_key(repo) ==> (#[trigger] res@[repo])@ == Seq::<char>::empty(),
            decreases self.overflow_repos@.len() - i,
        {
            let ghost had = res@;
            res.insert(self.overflow_repos[i].clone(), String::new());
            assert forall|repo: Seq<char>| #[trigger] res@.contains_key(repo) == exists|k: int|
                0 <= k < i + 1 && (#[trigger] self.overflow_repos@[k])@ == repo by {
                assert(res@.contains_key(repo) == (had.contains_key(repo)
                    || self.overflow_repos@[i as int]@ == repo));
            }
            i = i + 1;
        }
        let ghost over = self.state().overflow;
        assert forall|repo: Seq<char>| #[trigger] cache_view(res@).contains_key(repo)
            == exists|i: int| 0 <= i < over.len() && (#[trigger] over[i]).1 == repo by {
            if res@.contains_key(repo) {
                let k = choose|k: int|
                    0 <= k < self.overflow_repos@.len() && (#[trigger] self.overflow_repos@[k])@
                        == repo;
                assert(over[k].1 == repo);
            }
            if exists|i: int| 0 <= i < over.len() && (#[trigger] over[i]).1 == repo {
                let k = choose|i: int| 0 <= i < over.len() && (#[trigger] over[i]).1 == repo;
                assert(self.overflow_repos@[k]@ == repo);
            }
        }
        assert forall|k: int| 0 <= k < over.len() implies plan_for(
            (#[trigger] over[k]).1,
            cache_view(res@),
        ) is Own by {
            overflow_is_not_asked_for_its_descent(over, cache_view(res@), k);
        }
        res
    }

    /// Takes in the results of the repositories that were fetched whole, in their order.
    pub fn on_overflow(&mut self, results: Vec<RepoResult>)
        requires
            old(self).wf(),
            forall|k: int|
                0 <= k < pairs(old(self).state().overflow.len(), results@.len()) ==> (
                #[trigger] results@[k])@.repo == old(self).state().overflow[k].1,
        ensures
            final(self).wf(),
            final(self).repos() == old(self).repos(),
            final(self).valid() == old(self).valid(),
            final(self).window() == old(self).window(),
            final(self).state() == (BatchView {
                slots: placed(
                    old(self).state().slots,
                    positions(old(self).state().overflow),
                    views(results@),
                    pairs(old(self).state().overflow.len(), results@.len()),
                ),
                ..old(self).state()
            }),
    {
        let ghost had = *self;
        let ghost over = self.state().overflow;
        let ghost n = pairs(over.len(), results@.len());
        assert(positions(over) =~= self.overflow_at@);
        assert forall|k: int| 0 <= k < self.overflow_at@.len() implies (
        #[trigger] self.overflow_at@[k]) < self.slots@.len() by {
            assert(over[k].0 < self.repos().len());
        }
        proof {
            assert forall|k: int|
                #![trigger positions(over)[k]]
                0 <= k < n implies positions(over)[k] < had.repos().len() && views(
                results@,
            )[k].repo == had.repos()[positions(over)[k] as int] && repo_parts(
                had.repos()[positions(over)[k] as int],
            ) is Some by {
                assert(results@[k]@.repo == over[k].1);
            }
            placing_keeps_names(had.state().slots, positions(over), views(results@), n, had.repos());
            placing_keeps_absences(
                had.state().slots,
                positions(over),
                views(results@),
                n,
                had.repos(),
            );
        }
        place(&mut self.slots, &self.overflow_at, results);
    }

    /// The forks whose items at the upstream are to be searched.
    pub fn fork_targets(&self) -> (res: &Vec<ForkTarget>)
        ensures
            res@ == self.targets(),
            views(res@) == self.state().targets,
    {
        &self.targets
    }

    /// Takes in the results of the forks, in their order.
    pub fn on_forks(&mut self, results: Vec<RepoResult>)
        requires
            old(self).wf(),
            forall|k: int|
                0 <= k < pairs(old(self).state().targets.len(), results@.len()) ==> (
                #[trigger] results@[k])@.repo == old(self).state().targets[k].repo,
        ensures
            final(self).wf(),
            final(self).repos() == old(self).repos(),
            final(self).valid() == old(self).valid(),
            final(self).window() == old(self).window(),
            final(self).state() == (BatchView {
                slots: placed(
                    old(self).state().slots,
                    target_positions(old(self).state().targets),
                    views(results@),
                    pairs(old(self).state().targets.len(), results@.len()),
                ),
                ..old(self).state()
            }),
    {
        let mut at: Vec<usize> = Vec::new();
        let mut i: usize = 0;
        while i < self.targets.len()
            invariant
                i <= self.targets@.len(),
                self.wf(),
                at@.len() == i,
                forall|k: int|
                    0 <= k < i ==> #[trigger] at@[k] == self.targets@[k].original_index && at@[k]
                        < self.slots@.len(),
            decreases self.targets@.len() - i,
        {
            assert(self.state().targets[i as int].original_index < self.repos().len());
            at.push(self.targets[i].original_index);
            i = i + 1;
        }
        let ghost had = *self;
        let ghost forks = self.state().targets;
        let ghost n = pairs(forks.len(), results@.len());
        assert(target_positions(forks) =~= at@);
        proof {
            assert forall|k: int|
                #![trigger target_positions(forks)[k]]
                0 <= k < n implies target_positions(forks)[k] < had.repos().len() && views(
                results@,
            )[k].repo == had.repos()[target_positions(forks)[k] as int] && repo_parts(
                had.repos()[target_positions(forks)[k] as int],
            ) is Some by {
                assert(results@[k]@.repo == forks[k].repo);
            }
            placing_keeps_names(
                had.state().slots,
                target_positions(forks),
                views(results@),
                n,
                had.repos(),
            );
            placing_keeps_absences(
                had.state().slots,
                target_positions(forks),
                views(results@),
                n,
                had.repos(),
            );
        }
        place(&mut self.slots, &at, results);
    }

    /// The results, one for each repository in their order and by its name, and what was found
    /// out of forks. What has no result by now took too long.
    pub fn finish(self) -> (res: (Vec<RepoResult>, ForkCache))
        requires
            self.wf(),
        ensures
            views(res.0@) == filled(self.state().slots, self.repos()),
            res.0@.len() == self.repos().len(),
            forall|i: int|
                0 <= i < res.0@.len() ==> (#[trigger] res.0@[i])@.repo == self.repos()[i],
            forall|i: int|
                0 <= i < res.0@.len() && repo_parts(self.repos()[i]) is None ==> (
                #[trigger] res.0@[i])@ == absent_view(self.repos()[i]),
            cache_view(res.1@) == self.state().cache,
    {
        let results = fill(self.slots, &self.repos);
        proof {
            results_follow_the_list(self.state().slots, self.repos());
            assert(views(results@).len() == results@.len());
            assert forall|i: int| 0 <= i < results@.len() implies (#[trigger] results@[i])@.repo
                == self.repos()[i] by {
                assert(views(results@)[i] == results@[i]@);
            }
            assert forall|i: int|
                0 <= i < results@.len() && repo_parts(self.repos()[i]) is None implies (
            #[trigger] results@[i])@ == absent_view(self.repos()[i]) by {
                assert(views(results@)[i] == results@[i]@);
                assert(self.state().slots[i] == Some(absent_view(self.repos()[i])));
            }
        }
        (results, self.cache)
    }
}

/// The forks of a list being searched in chunks.
#[derive(Debug)]
pub struct ForkRun {
    repos: Vec<String>,
    slots: Vec<Option<RepoResult>>,
    window: Window,
}

/// The names of forks.
pub open spec fn fork_names(targets: Seq<ForkTarget>) -> Seq<Seq<char>> {
    targets.map_values(|target: ForkTarget| target.repo@)
}

/// One result for each fork, in their order: what its slot holds, else a timeout.
pub open spec fn forks_filled(
    slots: Seq<Option<ResultView>>,
    targets: Seq<ForkTarget>,
) -> Seq<ResultView> {
    Seq::new(
        targets.len(),
        |i: int|
            match slots[i] {
                Some(result) => result,
                None => fork_view(targets[i], StatusView::Error(ErrorView::Timeout)),
            },
    )
}

/// Whether `chunk` holds the forks of chunk `k`, each with its position in the list.
pub open spec fn is_fork_chunk(
    chunk: Seq<(usize, &ForkTarget)>,
    targets: Seq<ForkTarget>,
    k: nat,
) -> bool {
    &&& chunk.len() == chunk_of(targets, k).len()
    &&& forall|i: int|
        0 <= i < chunk.len() ==> (#[trigger] chunk[i]).0 == k * CHUNK_SIZE + i && *chunk[i].1
            == chunk_of(targets, k)[i]
}

/// The forks of chunk `k`, each with its position in the list.
pub fn fork_chunk(targets: &Vec<ForkTarget>, k: usize) -> (res: Vec<(usize, &ForkTarget)>)
    requires
        k < chunk_count(targets@.len()),
    ensures
        is_fork_chunk(res@, targets@, k as nat),
{
    let all = targets.len();
    assert(k * CHUNK_SIZE < all);
    let start = k * CHUNK_SIZE;
    let end = if all - start > CHUNK_SIZE {
        start + CHUNK_SIZE
    } else {
        all
    };
    let mut res: Vec<(usize, &ForkTarget)> = Vec::new();
    let mut i: usize = start;
    while i < end
        invariant
            start <= i <= end <= targets@.len(),
            start == k * CHUNK_SIZE,
            res@.len() == i - start,
            forall|j: int|
                0 <= j < res@.len() ==> (#[trigger] res@[j]).0 == start + j && *res@[j].1
                    == targets@[start + j],
        decreases end - i,
    {
        res.push((i, &targets[i]));
        i = i + 1;
    }
    res
}

impl ForkRun {
    /// The names of the forks.
    pub closed spec fn repos(&self) -> Seq<Seq<char>> {
        texts(self.repos@)
    }

    /// What is known so far of each fork.
    pub closed spec fn slots(&self) -> Seq<Option<ResultView>> {
        slot_views(self.slots@)
    }

    /// Which chunks are being asked about.
    pub closed spec fn window(&self) -> Window {
        self.window
    }

    /// Whether there is a slot for each fork, which holds no other fork's result, and the bound on
    /// queries is kept.
    pub open spec fn wf(&self) -> bool {
        &&& self.window().wf()
        &&& well_named(self.slots(), self.repos())
        &&& self.window().total() == chunk_count(self.repos().len())
    }

    /// Nothing asked yet about `targets`.
    pub fn new(targets: &Vec<ForkTarget>) -> (res: Self)
        ensures
            res.wf(),
            res.repos() == fork_names(targets@),
            res.slots() == Seq::new(targets@.len(), |i: int| None::<ResultView>),
            res.window().started() == 0,
            res.window().in_flight() == 0,
    {
        let total = targets.len();
        let mut repos: Vec<String> = Vec::new();
        let mut i: usize = 0;
        while i < targets.len()
            invariant
                i <= targets@.len(),
                repos@.len() == i,
                forall|k: int| 0 <= k < i ==> (#[trigger] repos@[k])@ == targets@[k].repo@,
            decreases targets@.len() - i,
        {
            repos.push(targets[i].repo.clone());
            i = i + 1;
        }
        assert(texts(repos@) =~= fork_names(targets@));
        let chunks = if total == 0 {
            0
        } else {
            (total - 1) / CHUNK_SIZE + 1
        };
        ForkRun { repos, slots: empty_slots(total), window: Window::new(chunks) }
    }

    /// The number of the next chunk to ask about, where the bound allows one.
    pub fn next_chunk(&mut self) -> (res: Option<usize>)
        requires
            old(self).wf(),
        ensures
            final(self).wf(),
            final(self).repos() == old(self).repos(),
            final(self).slots() == old(self).slots(),
            match res {
                Some(k) => {
                    &&& k == old(self).window().started() < chunk_count(old(self).repos().len())
                    &&& final(self).window().started() == old(self).window().started() + 1
                    &&& final(self).window().in_flight() == old(self).window().in_flight() + 1
                },
                None => {
                    &&& old(self).window().started() == chunk_count(old(self).repos().len())
                        || old(self).window().in_flight() == crate::schedule::MAX_IN_FLIGHT
                    &&& final(self).window() == old(self).window()
                },
            },
    {
        self.window.start()
    }

    /// Takes in the results of a chunk.
    pub fn on_chunk(&mut self, results: Vec<(usize, RepoResult)>)
        requires
            old(self).wf(),
            old(self).window().in_flight() > 0,
            forall|k: int|
                0 <= k < results@.len() ==> (#[trigger] results@[k]).0 < old(self).repos().len()
                    && results@[k].1@.repo == old(self).repos()[results@[k].0 as int],
        ensures
            final(self).wf(),
            final(self).repos() == old(self).repos(),
            final(self).slots() == settled(old(self).slots(), tagged(results@)),
            final(self).window().started() == old(self).window().started(),
            final(self).window().in_flight() == old(self).window().in_flight() - 1,
    {
        let ghost first = *self;
        let ghost all = tagged(results@);
        self.window.finish_one();
        let ghost window = self.window;
        assert(all.take(0) =~= Seq::empty());
        for entry in it: results
            invariant
                it.seq() == results@,
                all == tagged(results@),
                self.wf(),
                self.repos() == first.repos(),
                self.window() == window,
                self.slots() == settled(first.slots(), all.take(it.index() as int)),
                forall|k: int|
                    0 <= k < results@.len() ==> (#[trigger] results@[k]).0 < first.repos().len()
                        && results@[k].1@.repo == first.repos()[results@[k].0 as int],
        {
            let ghost next = all.take(it.index() + 1);
            assert(next.drop_last() =~= all.take(it.index() as int));
            assert(next.last() == (entry.0, entry.1@));
            assert(results@[it.index() as int] == entry);
            let ghost had = self.slots@;
            let (index, result) = entry;
            self.slots.set(index, Some(result));
            assert(slot_views(self.slots@) =~= slot_views(had).update(
                index as int,
                Some(result@),
            ));
        }
        assert(all.take(all.len() as int) =~= all);
    }

    /// Takes in the reply about chunk `k` of `targets`.
    pub fn on_reply(&mut self, targets: &Vec<ForkTarget>, k: usize, reply: Reply<SearchEnvelope>)
        requires
            old(self).wf(),
            old(self).window().in_flight() > 0,
            fork_names(targets@) == old(self).repos(),
            k < chunk_count(targets@.len()),
        ensures
            final(self).wf(),
            final(self).repos() == old(self).repos(),
            exists|chunk: Seq<(usize, &ForkTarget)>, clocks: Seq<Seq<Timestamp>>|
                is_fork_chunk(chunk, targets@, k as nat) && final(self).slots() == settled(
                    old(self).slots(),
                    #[trigger] search_replied(chunk, reply, clocks),
                ),
            exists|chunk: Seq<(usize, &ForkTarget)>, said: Seq<(usize, ResultView)>|
                is_fork_chunk(chunk, targets@, k as nat) && #[trigger] forks_say(said, chunk, reply)
                    && final(self).slots() == settled(old(self).slots(), said),
            final(self).window().started() == old(self).window().started(),
            final(self).window().in_flight() == old(self).window().in_flight() - 1,
    {
        let chunk = fork_chunk(targets, k);
        let results = fork_chunk_outcome(chunk.as_slice(), reply);
        let ghost clocks = choose|clocks: Seq<Seq<Timestamp>>|
            tagged(results@) == #[trigger] search_replied(chunk@, reply, clocks);
        proof {
            assert(tagged(results@) == search_replied(chunk@, reply, clocks));
            searches_speak_of_their_forks(chunk@, reply, clocks);
            searches_are_read(chunk@, reply, clocks);
            assert(tagged(results@).len() == results@.len());
            assert forall|i: int| 0 <= i < results@.len() implies (#[trigger] results@[i]).0
                < self.repos().len() && results@[i].1@.repo
                == self.repos()[results@[i].0 as int] by {
                assert(tagged(results@)[i] == (results@[i].0, results@[i].1@));
                assert(search_replied(chunk@, reply, clocks)[i].0 == chunk@[i].0);
                assert(*chunk@[i].1 == targets@[k * CHUNK_SIZE + i]);
                assert(fork_names(targets@)[k * CHUNK_SIZE + i] == chunk@[i].1.repo@);
            }
        }
        self.on_chunk(results);
    }

    /// Whether nothing is being asked.
    pub fn is_idle(&self) -> (res: bool)
        ensures
            res == (self.window().in_flight() == 0),
    {
        self.window.is_idle()
    }

    /// The results, one for each fork in their order and by its name. What has no result by now
    /// took too long.
    pub fn finish(self, targets: &Vec<ForkTarget>) -> (res: Vec<RepoResult>)
        requires
            self.wf(),
            fork_names(targets@) == self.repos(),
        ensures
            views(res@) == forks_filled(self.slots(), targets@),
            res@.len() == targets@.len(),
            forall|i: int|
                0 <= i < res@.len() ==> (#[trigger] res@[i])@.repo == targets@[i].repo@,
    {
        assert(fork_names(targets@).len() == targets@.len());
        let mut slots = self.slots;
        let ghost all = slot_views(slots@);
        let mut res: Vec<RepoResult> = Vec::new();
        let mut i: usize = 0;
        while i < targets.len()
            invariant
                i <= targets@.len(),
                slots@.len() == targets@.len(),
                all.len() == targets@.len(),
                res@.len() == i,
                forall|k: int| i <= k < slots@.len() ==> slot_view(#[trigger] slots@[k]) == all[k],
                forall|k: int|
                    0 <= k < i ==> (#[trigger] res@[k])@ == forks_filled(all, targets@)[k],
            decreases targets@.len() - i,
        {
            let result = match slots[i].take() {
                Some(result) => result,
                None => RepoResult::new(
                    targets[i].repo.clone(),
                    RepoStatus::Error(RepoError::Timeout),
                ).with_upstream(targets[i].parent.clone()),
            };
            res.push(result);
            i = i + 1;
        }
        assert(views(res@) =~= forks_filled(all, targets@));
        assert forall|i: int| 0 <= i < res@.len() implies (#[trigger] res@[i])@.repo
            == targets@[i].repo@ by {
            assert(fork_names(targets@)[i] == targets@[i].repo@);
            assert(all[i] matches Some(r) ==> r.repo == self.repos()[i]);
        }
        res
    }
}

/// Whether the answers are about repositories at different positions, all below `n`.
pub open spec fn separate(n: nat, items: Seq<ChunkView>) -> bool {
    &&& forall|i: int| 0 <= i < items.len() ==> (#[trigger] items[i]).original_index < n
    &&& forall|i: int, j: int|
        #![trigger items[i], items[j]]
        0 <= i < j < items.len() ==> items[i].original_index != items[j].original_index
}

proof fn separate_front(n: nat, items: Seq<ChunkView>)
    requires
        separate(n, items),
        items.len() > 0,
    ensures
        separate(n, items.drop_last()),
{
    let t = items.drop_last();
    assert forall|i: int| 0 <= i < t.len() implies (#[trigger] t[i]).original_index < n by {
        assert(t[i] == items[i]);
    }
    assert forall|i: int, j: int| #![trigger t[i], t[j]] 0 <= i < j < t.len() implies
        t[i].original_index != t[j].original_index by {
        assert(t[i] == items[i] && t[j] == items[j]);
    }
}

/// A repository that is answered for gets its own result, unless an upstream is shown in its
/// place; what is not answered for keeps what it had.
pub proof fn answers_go_to_their_repos(
    state: BatchView,
    items: Seq<ChunkView>,
    overrides: Map<Seq<char>, Seq<char>>,
)
    requires
        separate(state.slots.len(), items),
    ensures
        absorbed_all(state, items, overrides).slots.len() == state.slots.len(),
        forall|k: int|
            0 <= k < items.len() ==> absorbed_all(state, items, overrides).slots[(
            #[trigger] items[k]).original_index as int] == (if shown_parent(
                overrides,
                items[k],
            ) is None {
                Some(result_of(items[k]))
            } else {
                state.slots[items[k].original_index as int]
            }),
        forall|i: int|
            0 <= i < state.slots.len() && (forall|k: int|
                0 <= k < items.len() ==> (#[trigger] items[k]).original_index != i)
                ==> #[trigger] absorbed_all(state, items, overrides).slots[i] == state.slots[i],
    decreases items.len(),
{
    if items.len() > 0 {
        let t = items.drop_last();
        let last = items[items.len() - 1];
        separate_front(state.slots.len(), items);
        answers_go_to_their_repos(state, t, overrides);
        let done = absorbed_all(state, items, overrides).slots;
        let before = absorbed_all(state, t, overrides).slots;
        assert forall|k: int| 0 <= k < t.len() implies (#[trigger] t[k]) == items[k]
            && t[k].original_index != last.original_index by {
            assert(items[k].original_index != last.original_index);
        }
        assert(before[last.original_index as int] == state.slots[last.original_index as int]);
        assert forall|k: int| 0 <= k < items.len() implies done[(
        #[trigger] items[k]).original_index as int] == (if shown_parent(overrides, items[k]) is None {
            Some(result_of(items[k]))
        } else {
            state.slots[items[k].original_index as int]
        }) by {
            if k < t.len() {
                assert(t[k] == items[k]);
            }
        }
        assert forall|i: int|
            0 <= i < state.slots.len() && (forall|k: int|
                0 <= k < items.len() ==> (#[trigger] items[k]).original_index != i)
            implies #[trigger] done[i] == state.slots[i] by {
            assert(last.original_index != i);
            assert forall|k: int| 0 <= k < t.len() implies (#[trigger] t[k]).original_index != i by {
                assert(t[k] == items[k]);
            }
        }
    }
}

proof fn cache_of_answers(
    state: BatchView,
    items: Seq<ChunkView>,
    overrides: Map<Seq<char>, Seq<char>>,
    repo: Seq<char>,
)
    ensures
        ({
            let cache = absorbed_all(state, items, overrides).cache;
            &&& cache.contains_key(repo) == (state.cache.contains_key(repo) || exists|k: int|
                0 <= k < items.len() && (#[trigger] items[k]).repo == repo
                    && items[k].status is Items)
            &&& cache.contains_key(repo) ==> (exists|k: int|
                0 <= k < items.len() && (#[trigger] items[k]).repo == repo && items[k].status is Items
                    && cache[repo] == cache_entry(overrides, items[k])) || ((forall|k: int|
                0 <= k < items.len() && (#[trigger] items[k]).repo == repo ==> !(
                items[k].status is Items)) && cache[repo] == state.cache[repo])
        }),
    decreases items.len(),
{
    if items.len() > 0 {
        let t = items.drop_last();
        cache_of_answers(state, t, overrides, repo);
        let last = items[items.len() - 1];
        let before = absorbed_all(state, t, overrides).cache;
        assert forall|k: int| 0 <= k < t.len() implies #[trigger] t[k] == items[k] by {}
        if exists|k: int|
            0 <= k < t.len() && (#[trigger] t[k]).repo == repo && t[k].status is Items
                && before[repo] == cache_entry(overrides, t[k]) {
            let k = choose|k: int|
                0 <= k < t.len() && (#[trigger] t[k]).repo == repo && t[k].status is Items
                    && before[repo] == cache_entry(overrides, t[k]);
            assert(items[k].repo == repo);
        }
        if exists|k: int|
            0 <= k < t.len() && (#[trigger] t[k]).repo == repo && t[k].status is Items {
            let k = choose|k: int|
                0 <= k < t.len() && (#[trigger] t[k]).repo == repo && t[k].status is Items;
            assert(items[k].repo == repo);
        }
        if exists|k: int|
            0 <= k < items.len() && (#[trigger] items[k]).repo == repo && items[k].status is Items {
            let k = choose|k: int|
                0 <= k < items.len() && (#[trigger] items[k]).repo == repo
                    && items[k].status is Items;
            if k < t.len() {
                assert(t[k].repo == repo);
            }
        }
    }
}

/// A manual entry always wins: nothing else is ever remembered of a repository that has one.
pub proof fn manual_entries_win(
    state: BatchView,
    items: Seq<ChunkView>,
    overrides: Map<Seq<char>, Seq<char>>,
)
    requires
        forall|repo: Seq<char>| #[trigger]
            state.cache.contains_key(repo) && overrides.contains_key(repo) ==> state.cache[repo]
                == overrides[repo],
    ensures
        forall|repo: Seq<char>| #[trigger]
            absorbed_all(state, items, overrides).cache.contains_key(repo)
                && overrides.contains_key(repo) ==> absorbed_all(
                state,
                items,
                overrides,
            ).cache[repo] == overrides[repo],
    decreases items.len(),
{
    if items.len() > 0 {
        manual_entries_win(state, items.drop_last(), overrides);
        let before = absorbed_all(state, items.drop_last(), overrides).cache;
        let done = absorbed_all(state, items, overrides).cache;
        assert forall|repo: Seq<char>| #[trigger]
            done.contains_key(repo) && overrides.contains_key(repo) implies done[repo]
            == overrides[repo] by {
            assert(repo == items.last().repo || before.contains_key(repo));
        }
    }
}

/// An empty manual entry keeps a fork on its own items: no search is made for it.
pub proof fn empty_entry_opts_out(
    state: BatchView,
    item: ChunkView,
    overrides: Map<Seq<char>, Seq<char>>,
)
    requires
        overrides.contains_key(item.repo),
        overrides[item.repo].len() == 0,
        item.original_index < state.slots.len(),
    ensures
        absorbed(state, item, overrides).targets == state.targets,
        absorbed(state, item, overrides).slots[item.original_index as int] == Some(
            result_of(item),
        ),
{
}

/// What is searched at an upstream is never fetched whole as well.
pub proof fn forks_take_no_fallback(
    state: BatchView,
    item: ChunkView,
    overrides: Map<Seq<char>, Seq<char>>,
)
    requires
        shown_parent(overrides, item) is Some,
    ensures
        absorbed(state, item, overrides).overflow == state.overflow,
        absorbed(state, item, overrides).slots == state.slots,
        absorbed(state, item, overrides).targets.last().original_index == item.original_index,
        Some(absorbed(state, item, overrides).targets.last().parent) == shown_parent(
            overrides,
            item,
        ),
{
}

/// The searches that answers ask for, and what they ask to be fetched whole.
proof fn noted_of_answers(
    state: BatchView,
    items: Seq<ChunkView>,
    overrides: Map<Seq<char>, Seq<char>>,
    target: TargetView,
    entry: (usize, Seq<char>),
)
    requires
        state.targets.len() == 0,
        state.overflow.len() == 0,
    ensures
        absorbed_all(state, items, overrides).targets.contains(target) == exists|k: int|
            0 <= k < items.len() && shown_parent(overrides, #[trigger] items[k]) is Some && target
                == target_of(items[k], shown_parent(overrides, items[k])->0),
        absorbed_all(state, items, overrides).overflow.contains(entry) == exists|k: int|
            0 <= k < items.len() && shown_parent(overrides, #[trigger] items[k]) is None
                && items[k].needs_fallback && entry == (items[k].original_index, items[k].repo),
    decreases items.len(),
{
    if items.len() > 0 {
        let t = items.drop_last();
        noted_of_answers(state, t, overrides, target, entry);
        let last = items[items.len() - 1];
        let before = absorbed_all(state, t, overrides);
        let done = absorbed_all(state, items, overrides);
        assert forall|k: int| 0 <= k < t.len() implies #[trigger] t[k] == items[k] by {}
        let want = |item: ChunkView|
            shown_parent(overrides, item) is Some && target == target_of(
                item,
                shown_parent(overrides, item)->0,
            );
        let whole = |item: ChunkView|
            shown_parent(overrides, item) is None && item.needs_fallback && entry == (
                item.original_index,
                item.repo,
            );
        assert(done.targets.contains(target) == (before.targets.contains(target) || want(last)))
            by {
            if before.targets.contains(target) {
                let i = choose|i: int| 0 <= i < before.targets.len() && before.targets[i] == target;
                assert(done.targets[i] == target);
            }
            if want(last) {
                assert(done.targets[done.targets.len() - 1] == target);
            }
        }
        assert(done.overflow.contains(entry) == (before.overflow.contains(entry) || whole(last)))
            by {
            if before.overflow.contains(entry) {
                let i = choose|i: int| 0 <= i < before.overflow.len() && before.overflow[i] == entry;
                assert(done.overflow[i] == entry);
            }
            if whole(last) {
                assert(done.overflow[done.overflow.len() - 1] == entry);
            }
        }
        if exists|k: int| 0 <= k < t.len() && want(#[trigger] t[k]) {
            let k = choose|k: int| 0 <= k < t.len() && want(#[trigger] t[k]);
            assert(want(items[k]));
        }
        if exists|k: int| 0 <= k < items.len() && want(#[trigger] items[k]) {
            let k = choose|k: int| 0 <= k < items.len() && want(#[trigger] items[k]);
            if k < t.len() {
                assert(want(t[k]));
            }
        }
        if exists|k: int| 0 <= k < t.len() && whole(#[trigger] t[k]) {
            let k = choose|k: int| 0 <= k < t.len() && whole(#[trigger] t[k]);
            assert(whole(items[k]));
        }
        if exists|k: int| 0 <= k < items.len() && whole(#[trigger] items[k]) {
            let k = choose|k: int| 0 <= k < items.len() && whole(#[trigger] items[k]);
            if k < t.len() {
                assert(whole(t[k]));
            }
        }
    }
}

/// In which order the answers come in does not matter to the results, nor to what is remembered
/// or asked for again, as long as two answers on one repository tell the same of its descent.
pub proof fn answers_may_come_in_any_order(
    state: BatchView,
    a: Seq<ChunkView>,
    b: Seq<ChunkView>,
    overrides: Map<Seq<char>, Seq<char>>,
)
    requires
        separate(state.slots.len(), a),
        separate(state.slots.len(), b),
        a.to_multiset() == b.to_multiset(),
        state.targets.len() == 0,
        state.overflow.len() == 0,
        forall|i: int, j: int|
            #![trigger a[i], a[j]]
            0 <= i < a.len() && 0 <= j < a.len() && a[i].repo == a[j].repo && a[i].status is Items
                && a[j].status is Items ==> cache_entry(overrides, a[i]) == cache_entry(
                overrides,
                a[j],
            ),
    ensures
        absorbed_all(state, a, overrides).slots == absorbed_all(state, b, overrides).slots,
        absorbed_all(state, a, overrides).cache == absorbed_all(state, b, overrides).cache,
        forall|target: TargetView| #[trigger]
            absorbed_all(state, a, overrides).targets.contains(target) == absorbed_all(
                state,
                b,
                overrides,
            ).targets.contains(target),
        forall|entry: (usize, Seq<char>)| #[trigger]
            absorbed_all(state, a, overrides).overflow.contains(entry) == absorbed_all(
                state,
                b,
                overrides,
            ).overflow.contains(entry),
{
    same_members(a, b);
    order_keeps_slots(state, a, b, overrides);
    order_keeps_cache(state, a, b, overrides);
    let x = absorbed_all(state, a, overrides);
    let y = absorbed_all(state, b, overrides);
    assert forall|target: TargetView| #[trigger]
        x.targets.contains(target) == y.targets.contains(target) by {
        order_keeps_notes(state, a, b, overrides, target, (0, Seq::empty()));
    }
    assert forall|entry: (usize, Seq<char>)| #[trigger]
        x.overflow.contains(entry) == y.overflow.contains(entry) by {
        let none = TargetView {
            original_index: 0,
            repo: Seq::empty(),
            parent: Seq::empty(),
            fork_owner: Seq::empty(),
        };
        order_keeps_notes(state, a, b, overrides, none, entry);
    }
}

proof fn order_keeps_slots(
    state: BatchView,
    a: Seq<ChunkView>,
    b: Seq<ChunkView>,
    overrides: Map<Seq<char>, Seq<char>>,
)
    requires
        separate(state.slots.len(), a),
        separate(state.slots.len(), b),
        forall|x: ChunkView| #[trigger] a.contains(x) == b.contains(x),
    ensures
        absorbed_all(state, a, overrides).slots == absorbed_all(state, b, overrides).slots,
{
    let x = absorbed_all(state, a, overrides).slots;
    let y = absorbed_all(state, b, overrides).slots;
    answers_go_to_their_repos(state, a, overrides);
    answers_go_to_their_repos(state, b, overrides);
    assert forall|i: int| 0 <= i < state.slots.len() implies x[i] == y[i] by {
        if exists|k: int| 0 <= k < a.len() && (#[trigger] a[k]).original_index == i {
            let k = choose|k: int| 0 <= k < a.len() && (#[trigger] a[k]).original_index == i;
            let m = other_place(a, b, k);
            assert(y[b[m].original_index as int] == x[a[k].original_index as int]);
        } else {
            assert forall|k: int| 0 <= k < b.len() implies (#[trigger] b[k]).original_index != i by {
                assert(b.contains(b[k]));
                assert(a.contains(b[k]));
                let m = choose|m: int| 0 <= m < a.len() && a[m] == b[k];
                assert(a[m].original_index != i);
            }
        }
    }
    assert(x =~= y);
}

proof fn order_keeps_cache(
    state: BatchView,
    a: Seq<ChunkView>,
    b: Seq<ChunkView>,
    overrides: Map<Seq<char>, Seq<char>>,
)
    requires
        forall|x: ChunkView| #[trigger] a.contains(x) == b.contains(x),
        forall|i: int, j: int|
            #![trigger a[i], a[j]]
            0 <= i < a.len() && 0 <= j < a.len() && a[i].repo == a[j].repo && a[i].status is Items
                && a[j].status is Items ==> cache_entry(overrides, a[i]) == cache_entry(
                overrides,
                a[j],
            ),
    ensures
        absorbed_all(state, a, overrides).cache == absorbed_all(state, b, overrides).cache,
{
    let x = absorbed_all(state, a, overrides).cache;
    let y = absorbed_all(state, b, overrides).cache;
    assert forall|repo: Seq<char>|
        #![trigger x.contains_key(repo)]
        #![trigger x[repo]]
        x.contains_key(repo) == y.contains_key(repo) && (x.contains_key(repo) ==> x[repo]
            == y[repo]) by {
        cache_of_answers(state, a, overrides, repo);
        cache_of_answers(state, b, overrides, repo);
        let told = |item: ChunkView| item.repo == repo && item.status is Items;
        same_witness(a, b, told);
        if exists|k: int| 0 <= k < a.len() && told(#[trigger] a[k]) {
            let k = choose|k: int| 0 <= k < a.len() && told(#[trigger] a[k]);
            let m = choose|m: int| 0 <= m < b.len() && told(#[trigger] b[m]);
            assert(a[k].repo == repo);
            assert(b[m].repo == repo);
            let p = choose|p: int|
                0 <= p < a.len() && (#[trigger] a[p]).repo == repo && a[p].status is Items
                    && x[repo] == cache_entry(overrides, a[p]);
            let q = choose|q: int|
                0 <= q < b.len() && (#[trigger] b[q]).repo == repo && b[q].status is Items
                    && y[repo] == cache_entry(overrides, b[q]);
            assert(b.contains(b[q]));
            assert(a.contains(b[q]));
            let r = choose|r: int| 0 <= r < a.len() && a[r] == b[q];
            assert(cache_entry(overrides, a[p]) == cache_entry(overrides, a[r]));
        } else {
            assert forall|k: int| 0 <= k < a.len() && (#[trigger] a[k]).repo == repo implies !(
            a[k].status is Items) by {
                assert(!told(a[k]));
            }
            assert forall|k: int| 0 <= k < b.len() && (#[trigger] b[k]).repo == repo implies !(
            b[k].status is Items) by {
                assert(!told(b[k]));
            }
        }
    }
    assert(x =~= y);
}

proof fn order_keeps_notes(
    state: BatchView,
    a: Seq<ChunkView>,
    b: Seq<ChunkView>,
    overrides: Map<Seq<char>, Seq<char>>,
    target: TargetView,
    entry: (usize, Seq<char>),
)
    requires
        forall|x: ChunkView| #[trigger] a.contains(x) == b.contains(x),
        state.targets.len() == 0,
        state.overflow.len() == 0,
    ensures
        absorbed_all(state, a, overrides).targets.contains(target) == absorbed_all(
            state,
            b,
            overrides,
        ).targets.contains(target),
        absorbed_all(state, a, overrides).overflow.contains(entry) == absorbed_all(
            state,
            b,
            overrides,
        ).overflow.contains(entry),
{
    noted_of_answers(state, a, overrides, target, entry);
    noted_of_answers(state, b, overrides, target, entry);
    let want = |item: ChunkView|
        shown_parent(overrides, item) is Some && target == target_of(
            item,
            shown_parent(overrides, item)->0,
        );
    let whole = |item: ChunkView|
        shown_parent(overrides, item) is None && item.needs_fallback && entry == (
            item.original_index,
            item.repo,
        );
    same_witness(a, b, want);
    same_witness(a, b, whole);
    assert((exists|k: int| 0 <= k < a.len() && want(#[trigger] a[k])) == absorbed_all(
        state,
        a,
        overrides,
    ).targets.contains(target));
    assert((exists|k: int| 0 <= k < b.len() && want(#[trigger] b[k])) == absorbed_all(
        state,
        b,
        overrides,
    ).targets.contains(target));
    assert((exists|k: int| 0 <= k < a.len() && whole(#[trigger] a[k])) == absorbed_all(
        state,
        a,
        overrides,
    ).overflow.contains(entry));
    assert((exists|k: int| 0 <= k < b.len() && whole(#[trigger] b[k])) == absorbed_all(
        state,
        b,
        overrides,
    ).overflow.contains(entry));
}

/// Where `b` holds the member of `a` at position `k`.
proof fn other_place<T>(a: Seq<T>, b: Seq<T>, k: int) -> (m: int)
    requires
        forall|x: T| #[trigger] a.contains(x) == b.contains(x),
        0 <= k < a.len(),
    ensures
        0 <= m < b.len(),
        b[m] == a[k],
{
    assert(a.contains(a[k]));
    assert(b.contains(a[k]));
    choose|m: int| 0 <= m < b.len() && b[m] == a[k]
}

proof fn same_members<T>(a: Seq<T>, b: Seq<T>)
    requires
        a.to_multiset() == b.to_multiset(),
    ensures
        forall|x: T| #[trigger] a.contains(x) == b.contains(x),
{
    broadcast use vstd::seq_lib::group_to_multiset_ensures;

    assert forall|x: T| #[trigger] a.contains(x) == b.contains(x) by {
        assert(a.contains(x) == (a.to_multiset().count(x) > 0));
        assert(b.contains(x) == (b.to_multiset().count(x) > 0));
    }
}

proof fn same_witness<T>(a: Seq<T>, b: Seq<T>, p: spec_fn(T) -> bool)
    requires
        forall|x: T| #[trigger] a.contains(x) == b.contains(x),
    ensures
        (exists|k: int| 0 <= k < a.len() && p(#[trigger] a[k])) == (exists|k: int|
            0 <= k < b.len() && p(#[trigger] b[k])),
{
    if exists|k: int| 0 <= k < a.len() && p(#[trigger] a[k]) {
        let k = choose|k: int| 0 <= k < a.len() && p(#[trigger] a[k]);
        let m = other_place(a, b, k);
        assert(p(b[m]));
    }
    if exists|k: int| 0 <= k < b.len() && p(#[trigger] b[k]) {
        let k = choose|k: int| 0 <= k < b.len() && p(#[trigger] b[k]);
        assert(a.contains(b[k]));
        let m = choose|m: int| 0 <= m < a.len() && a[m] == b[k];
        assert(p(a[m]));
    }
}

/// Results put at different positions stand there, and the other slots keep what they had.
pub proof fn placed_stand_in_their_slots(
    slots: Seq<Option<ResultView>>,
    at: Seq<usize>,
    results: Seq<ResultView>,
    n: nat,
)
    requires
        n <= at.len(),
        forall|k: int| 0 <= k < n ==> (#[trigger] at[k]) < slots.len(),
        forall|i: int, j: int| #![trigger at[i], at[j]] 0 <= i < j < n ==> at[i] != at[j],
    ensures
        placed(slots, at, results, n).len() == slots.len(),
        forall|k: int|
            0 <= k < n ==> placed(slots, at, results, n)[(#[trigger] at[k]) as int] == Some(
                results[k],
            ),
        forall|i: int|
            0 <= i < slots.len() && (forall|k: int| 0 <= k < n ==> (#[trigger] at[k]) != i)
                ==> #[trigger] placed(slots, at, results, n)[i] == slots[i],
    decreases n,
{
    if n > 0 {
        let m = (n - 1) as nat;
        placed_stand_in_their_slots(slots, at, results, m);
        let last = at[n - 1];
        assert forall|i: int|
            0 <= i < slots.len() && (forall|k: int| 0 <= k < n ==> (#[trigger] at[k]) != i)
            implies #[trigger] placed(slots, at, results, n)[i] == slots[i] by {
            assert(last != i);
            assert(placed(slots, at, results, m)[i] == slots[i]);
        }
    }
}

/// The repositories that are asked about know their names and positions in the list.
pub proof fn valid_repos_point_back(repos: Seq<Seq<char>>)
    requires
        repos.len() <= usize::MAX,
    ensures
        forall|k: int|
            0 <= k < valid_repos(repos).len() ==> {
                let valid = #[trigger] valid_repos(repos)[k];
                &&& valid.original_index < repos.len()
                &&& valid.repo == repos[valid.original_index as int]
                &&& repo_parts(valid.repo) == Some((valid.owner, valid.name))
            },
    decreases repos.len(),
{
    if repos.len() > 0 {
        valid_repos_point_back(repos.drop_last());
    }
}

/// A reply says one thing of each repository of its chunk, in the chunk's order.
pub proof fn replies_speak_of_their_repos(
    chunk: Seq<ValidRepo>,
    reply: Reply<GraphQlEnvelope>,
    subscribed: Option<&SubscribedItems>,
)
    ensures
        replied(chunk, reply, subscribed).len() == chunk.len(),
        forall|k: int|
            0 <= k < chunk.len() ==> (#[trigger] replied(
                chunk,
                reply,
                subscribed,
            )[k]).original_index == chunk[k].original_index && replied(
                chunk,
                reply,
                subscribed,
            )[k].repo == chunk[k].repo@,
{
}

/// A reply to a search says one thing of each fork of its chunk, in the chunk's order, and tells
/// the upstream whatever came of it.
pub proof fn searches_speak_of_their_forks(
    chunk: Seq<(usize, &ForkTarget)>,
    reply: Reply<SearchEnvelope>,
    clocks: Seq<Seq<Timestamp>>,
)
    ensures
        search_replied(chunk, reply, clocks).len() == chunk.len(),
        forall|k: int|
            #![trigger search_replied(chunk, reply, clocks)[k]]
            0 <= k < chunk.len() ==> {
                let said = search_replied(chunk, reply, clocks)[k];
                &&& said.0 == chunk[k].0
                &&& said.1.repo == chunk[k].1.repo@
                &&& said.1.upstream == Some(chunk[k].1.parent@)
                &&& !(said.1.status is NotFound)
            },
{
}

/// Taking in answers leaves each slot to its own repository.
pub proof fn answers_keep_names(
    state: BatchView,
    items: Seq<ChunkView>,
    overrides: Map<Seq<char>, Seq<char>>,
    repos: Seq<Seq<char>>,
)
    requires
        well_named(state.slots, repos),
        forall|k: int|
            0 <= k < items.len() ==> (#[trigger] items[k]).original_index < repos.len()
                && items[k].repo == repos[items[k].original_index as int],
    ensures
        well_named(absorbed_all(state, items, overrides).slots, repos),
    decreases items.len(),
{
    if items.len() > 0 {
        let t = items.drop_last();
        assert forall|k: int| 0 <= k < t.len() implies (#[trigger] t[k]).original_index
            < repos.len() && t[k].repo == repos[t[k].original_index as int] by {
            assert(t[k] == items[k]);
        }
        answers_keep_names(state, t, overrides, repos);
        assert(items.last() == items[items.len() - 1]);
    }
}

proof fn absorbing_keeps_names(
    state: BatchView,
    item: ChunkView,
    overrides: Map<Seq<char>, Seq<char>>,
    repos: Seq<Seq<char>>,
)
    requires
        well_named(state.slots, repos),
        noted_by_name(state, repos),
        item.original_index < repos.len(),
        absences_stand(state.slots, repos),
        item.repo == repos[item.original_index as int],
        repo_parts(item.repo) is Some,
    ensures
        well_named(absorbed(state, item, overrides).slots, repos),
        absences_stand(absorbed(state, item, overrides).slots, repos),
        noted_by_name(absorbed(state, item, overrides), repos),
{
}

/// Before anything was asked each slot is its repository's own, and what names no repository is
/// absent.
pub proof fn first_slots_are_well_named(repos: Seq<Seq<char>>)
    ensures
        well_named(first_slots(repos), repos),
        absences_stand(first_slots(repos), repos),
{
}

/// Results that carry the names of the repositories at their positions leave each slot to its own
/// repository.
pub proof fn placing_keeps_names(
    slots: Seq<Option<ResultView>>,
    at: Seq<usize>,
    results: Seq<ResultView>,
    n: nat,
    repos: Seq<Seq<char>>,
)
    requires
        well_named(slots, repos),
        n <= at.len(),
        forall|k: int|
            #![trigger at[k]]
            0 <= k < n ==> at[k] < repos.len() && results[k].repo == repos[at[k] as int],
    ensures
        well_named(placed(slots, at, results, n), repos),
    decreases n,
{
    if n > 0 {
        placing_keeps_names(slots, at, results, (n - 1) as nat, repos);
        assert(at[n - 1] < repos.len());
    }
}

/// Results put at positions of repositories leave what names no repository absent.
pub proof fn placing_keeps_absences(
    slots: Seq<Option<ResultView>>,
    at: Seq<usize>,
    results: Seq<ResultView>,
    n: nat,
    repos: Seq<Seq<char>>,
)
    requires
        slots.len() == repos.len(),
        absences_stand(slots, repos),
        n <= at.len(),
        forall|k: int|
            #![trigger at[k]]
            0 <= k < n ==> at[k] < repos.len() && repo_parts(repos[at[k] as int]) is Some,
    ensures
        placed(slots, at, results, n).len() == repos.len(),
        absences_stand(placed(slots, at, results, n), repos),
    decreases n,
{
    if n > 0 {
        placing_keeps_absences(slots, at, results, (n - 1) as nat, repos);
        assert(at[n - 1] < repos.len());
    }
}

/// What is fetched whole is not asked for its descent again: with what `overflow_forks` knows, its
/// own items are asked for at once.
pub proof fn overflow_is_not_asked_for_its_descent(
    overflow: Seq<(usize, Seq<char>)>,
    forks: Map<Seq<char>, Seq<char>>,
    k: int,
)
    requires
        0 <= k < overflow.len(),
        repo_parts(overflow[k].1) is Some,
        forall|repo: Seq<char>| #[trigger]
            forks.contains_key(repo) == exists|i: int|
                0 <= i < overflow.len() && (#[trigger] overflow[i]).1 == repo,
        forall|repo: Seq<char>|
            forks.contains_key(repo) ==> #[trigger] forks[repo] == Seq::<char>::empty(),
    ensures
        plan_for(overflow[k].1, forks) == PlanView::Own,
{
    assert(forks.contains_key(overflow[k].1));
}

/// Taking answers in one lot after the other comes to the same as all of them at once.
pub proof fn lots_add_up(
    state: BatchView,
    a: Seq<ChunkView>,
    b: Seq<ChunkView>,
    overrides: Map<Seq<char>, Seq<char>>,
)
    ensures
        absorbed_all(absorbed_all(state, a, overrides), b, overrides) == absorbed_all(
            state,
            a + b,
            overrides,
        ),
    decreases b.len(),
{
    if b.len() == 0 {
        assert(a + b =~= a);
    } else {
        lots_add_up(state, a, b.drop_last(), overrides);
        assert((a + b).drop_last() =~= a + b.drop_last());
        assert((a + b).last() == b.last());
    }
}

/// What the replies about the chunks `ks` say, one after the other.
pub open spec fn all_answers(
    valid: Seq<ValidRepo>,
    ks: Seq<nat>,
    replies: Seq<Reply<GraphQlEnvelope>>,
    subscribed: Option<&SubscribedItems>,
) -> Seq<ChunkView>
    decreases ks.len(),
{
    if ks.len() == 0 {
        Seq::empty()
    } else {
        all_answers(valid, ks.drop_last(), replies.drop_last(), subscribed) + replied(
            chunk_of(valid, ks.last()),
            replies.last(),
            subscribed,
        )
    }
}

/// Whether `item` is about the repository at some position in one of the chunks `ks`.
spec fn about(valid: Seq<ValidRepo>, ks: Seq<nat>, item: ChunkView, p: int) -> bool {
    &&& 0 <= p < valid.len()
    &&& ks.contains((p / (CHUNK_SIZE as int)) as nat)
    &&& item.original_index == valid[p].original_index
}

proof fn answers_are_about_their_chunks(
    valid: Seq<ValidRepo>,
    ks: Seq<nat>,
    replies: Seq<Reply<GraphQlEnvelope>>,
    subscribed: Option<&SubscribedItems>,
    i: int,
) -> (p: int)
    requires
        ks.len() == replies.len(),
        forall|j: int| 0 <= j < ks.len() ==> #[trigger] ks[j] < chunk_count(valid.len()),
        0 <= i < all_answers(valid, ks, replies, subscribed).len(),
    ensures
        about(valid, ks, all_answers(valid, ks, replies, subscribed)[i], p),
    decreases ks.len(),
{
    let t = ks.drop_last();
    let head = all_answers(valid, t, replies.drop_last(), subscribed);
    if i < head.len() {
        assert forall|j: int| 0 <= j < t.len() implies #[trigger] t[j] < chunk_count(
            valid.len(),
        ) by {
            assert(t[j] == ks[j]);
        }
        let p = answers_are_about_their_chunks(
            valid,
            t,
            replies.drop_last(),
            subscribed,
            i,
        );
        let k = (p / (CHUNK_SIZE as int)) as nat;
        let j = choose|j: int| 0 <= j < t.len() && t[j] == k;
        assert(ks[j] == k);
        p
    } else {
        let k = ks[ks.len() - 1];
        let chunk = chunk_of(valid, k);
        replies_speak_of_their_repos(chunk, replies.last(), subscribed);
        let j = i - head.len();
        let p = k * CHUNK_SIZE + j;
        assert(chunk[j] == valid[p]);
        assert((p / (CHUNK_SIZE as int)) as nat == k);
        assert(all_answers(valid, ks, replies, subscribed)[i] == replied(
            chunk,
            replies.last(),
            subscribed,
        )[j]);
        p
    }
}

/// Replies about different chunks are about different repositories, so that it does not matter
/// in which order they come in.
pub proof fn chunks_are_separate(
    valid: Seq<ValidRepo>,
    ks: Seq<nat>,
    replies: Seq<Reply<GraphQlEnvelope>>,
    subscribed: Option<&SubscribedItems>,
    n: nat,
)
    requires
        ks.len() == replies.len(),
        ks.no_duplicates(),
        forall|j: int| 0 <= j < ks.len() ==> #[trigger] ks[j] < chunk_count(valid.len()),
        forall|p: int| 0 <= p < valid.len() ==> (#[trigger] valid[p]).original_index < n,
        forall|p: int, q: int|
            #![trigger valid[p], valid[q]]
            0 <= p < q < valid.len() ==> valid[p].original_index < valid[q].original_index,
    ensures
        separate(n, all_answers(valid, ks, replies, subscribed)),
    decreases ks.len(),
{
    if ks.len() > 0 {
        let t = ks.drop_last();
        let k = ks[ks.len() - 1];
        let items = all_answers(valid, ks, replies, subscribed);
        let head = all_answers(valid, t, replies.drop_last(), subscribed);
        let chunk = chunk_of(valid, k);
        assert forall|j: int| 0 <= j < t.len() implies #[trigger] t[j] < chunk_count(
            valid.len(),
        ) && t[j] != k by {
            assert(t[j] == ks[j]);
        }
        assert(t.no_duplicates()) by {
            assert forall|i: int, j: int|
                0 <= i < t.len() && 0 <= j < t.len() && i != j implies t[i] != t[j] by {
                assert(t[i] == ks[i] && t[j] == ks[j]);
            }
        }
        chunks_are_separate(valid, t, replies.drop_last(), subscribed, n);
        replies_speak_of_their_repos(chunk, replies.last(), subscribed);
        assert forall|i: int| 0 <= i < items.len() implies (#[trigger] items[i]).original_index
            < n by {
            let p = answers_are_about_their_chunks(valid, ks, replies, subscribed, i);
            assert(valid[p].original_index < n);
        }
        assert forall|i: int, j: int|
            #![trigger items[i], items[j]]
            0 <= i < j < items.len() implies items[i].original_index != items[j].original_index by {
            if j < head.len() {
                assert(items[i] == head[i] && items[j] == head[j]);
            } else {
                let q = k * CHUNK_SIZE + (j - head.len());
                assert(chunk[j - head.len()] == valid[q]);
                assert(items[j].original_index == valid[q].original_index);
                if i < head.len() {
                    assert(items[i] == head[i]);
                    let p = answers_are_about_their_chunks(
                        valid,
                        t,
                        replies.drop_last(),
                        subscribed,
                        i,
                    );
                    let m = choose|m: int|
                        0 <= m < t.len() && t[m] == (p / (CHUNK_SIZE as int)) as nat;
                    assert(t[m] != k);
                    assert(p != q);
                    assert(items[i].original_index == valid[p].original_index);
                } else {
                    let p = k * CHUNK_SIZE + (i - head.len());
                    assert(chunk[i - head.len()] == valid[p]);
                    assert(items[i].original_index == valid[p].original_index);
                }
            }
        }
    }
}

/// The repositories that are asked about stand in the order of the list, each once.
pub proof fn valid_repos_ascend(repos: Seq<Seq<char>>)
    requires
        repos.len() <= usize::MAX,
    ensures
        forall|p: int, q: int|
            #![trigger valid_repos(repos)[p], valid_repos(repos)[q]]
            0 <= p < q < valid_repos(repos).len() ==> valid_repos(repos)[p].original_index
                < valid_repos(repos)[q].original_index,
    decreases repos.len(),
{
    if repos.len() > 0 {
        valid_repos_ascend(repos.drop_last());
        valid_repos_point_back(repos.drop_last());
    }
}

} // verus!
