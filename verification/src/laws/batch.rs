//! Laws on fetching many repositories at a time.
use vstd::prelude::*;

use crate::batch::{
    absent_view, absorbed, chunk_count, chunk_of, first_slots, forks_filled, replied,
    search_replied, searches_speak_of_their_forks, valid_repos, valid_repos_point_back, BatchView,
    Reply,
};
use crate::github::{failure_message, repo_parts, SubscribedItems, FETCH_TIMEOUT_SECS};
use crate::graphql::{
    ChunkView, ForkTarget, GraphQlEnvelope, SearchEnvelope, ValidRepo, CHUNK_TIMEOUT_SECS,
};
use crate::laws::graphql::{
    answers_are_read_by_alias, says_of_fork, says_of_repo, searches_are_read_by_alias,
};
use crate::model::{error_message, ErrorView, ResultView, StatusView, Timestamp};
use crate::schedule::{filled, Window};

verus! {

/// A list is asked about forty at a time: the chunks are as few as can hold it, none holds more
/// than forty, and the member at each position stands in the chunk and at the place that its
/// position says.
pub proof fn chunks_hold_forty<T>(all: Seq<T>, p: int)
    requires
        0 <= p < all.len(),
    ensures
        chunk_count(all.len()) * 40 >= all.len(),
        (chunk_count(all.len()) - 1) * 40 < all.len(),
        p / 40 < chunk_count(all.len()),
        chunk_of(all, (p / 40) as nat).len() <= 40,
        p % 40 < chunk_of(all, (p / 40) as nat).len(),
        chunk_of(all, (p / 40) as nat)[p % 40] == all[p],
{
}

/// No more than four requests are ever under way.
pub proof fn four_at_a_time(window: Window)
    requires
        window.wf(),
    ensures
        window.in_flight() <= 4,
{
}

proof fn every_valid_repo_is_there(repos: Seq<Seq<char>>, p: int)
    requires
        repos.len() <= usize::MAX,
        0 <= p < repos.len(),
        repo_parts(repos[p]) is Some,
    ensures
        exists|k: int|
            0 <= k < valid_repos(repos).len() && (#[trigger] valid_repos(repos)[k]).original_index
                == p,
    decreases repos.len(),
{
    let all = valid_repos(repos);
    if p == repos.len() - 1 {
        assert(all[all.len() - 1].original_index == p);
    } else {
        let t = repos.drop_last();
        assert(t[p] == repos[p]);
        every_valid_repo_is_there(t, p);
        let k = choose|k: int|
            0 <= k < valid_repos(t).len() && (#[trigger] valid_repos(t)[k]).original_index == p;
        assert(all[k] == valid_repos(t)[k]);
    }
}

/// Just the repositories whose names have an owner and a name are asked about, each by its own
/// owner and name and at its own position.
pub proof fn well_named_repos_are_asked_about(repos: Seq<Seq<char>>)
    requires
        repos.len() <= usize::MAX,
    ensures
        forall|p: int|
            0 <= p < repos.len() && repo_parts(#[trigger] repos[p]) is Some ==> exists|k: int|
                0 <= k < valid_repos(repos).len() && (#[trigger] valid_repos(
                    repos,
                )[k]).original_index == p,
        forall|k: int|
            0 <= k < valid_repos(repos).len() ==> {
                let asked = #[trigger] valid_repos(repos)[k];
                &&& asked.original_index < repos.len()
                &&& asked.repo == repos[asked.original_index as int]
                &&& repo_parts(asked.repo) == Some((asked.owner, asked.name))
            },
{
    valid_repos_point_back(repos);
    assert forall|p: int| 0 <= p < repos.len() && repo_parts(#[trigger] repos[p]) is Some implies exists|
        k: int,
    |
        0 <= k < valid_repos(repos).len() && (#[trigger] valid_repos(repos)[k]).original_index
            == p by {
        every_valid_repo_is_there(repos, p);
    }
}

/// Before anything was asked just the repositories whose names name none are settled: they are
/// absent.
pub proof fn misnamed_repos_are_absent(repos: Seq<Seq<char>>, i: int)
    requires
        0 <= i < repos.len(),
    ensures
        repo_parts(repos[i]) is Some ==> first_slots(repos)[i] is None,
        repo_parts(repos[i]) is None ==> (first_slots(repos)[i] matches Some(result) && result
            == absent_view(repos[i])),
        absent_view(repos[i]).repo == repos[i],
        absent_view(repos[i]).status is NotFound,
        absent_view(repos[i]).upstream is None,
{
}

/// The upstream whose items stand for a repository: the one that was entered by hand, none where
/// the entry is empty, and without an entry the one that GitHub tells.
pub open spec fn upstream_of(
    overrides: Map<Seq<char>, Seq<char>>,
    item: ChunkView,
) -> Option<Seq<char>> {
    if !overrides.contains_key(item.repo) {
        item.fork_parent
    } else if overrides[item.repo].len() > 0 {
        Some(overrides[item.repo])
    } else {
        None
    }
}

/// What an answer about a repository leads to. Where an upstream stands for it, the items of the
/// fork's owner there are to be searched, and its slot stays open; else its slot holds what was
/// answered, and it is to be fetched whole just where it has more items than were asked for. What
/// is to be remembered of its descent is the entry by hand, else what GitHub tells, and nothing
/// where the answer brought no items.
pub proof fn answers_lead_on(
    state: BatchView,
    item: ChunkView,
    overrides: Map<Seq<char>, Seq<char>>,
)
    requires
        item.original_index < state.slots.len(),
    ensures
        ({
            let out = absorbed(state, item, overrides);
            &&& match upstream_of(overrides, item) {
                Some(upstream) => {
                    &&& out.slots == state.slots
                    &&& out.overflow == state.overflow
                    &&& out.targets.len() == state.targets.len() + 1
                    &&& out.targets.drop_last() == state.targets
                    &&& out.targets.last().original_index == item.original_index
                    &&& out.targets.last().repo == item.repo
                    &&& out.targets.last().parent == upstream
                    &&& repo_parts(item.repo) matches Some((owner, _)) ==> out.targets.last().fork_owner
                        == owner
                },
                None => {
                    &&& out.targets == state.targets
                    &&& out.slots.len() == state.slots.len()
                    &&& out.slots[item.original_index as int] matches Some(result) && result.repo
                        == item.repo && result.status == item.status && result.upstream is None
                    &&& forall|i: int|
                        0 <= i < state.slots.len() && i != item.original_index
                            ==> #[trigger] out.slots[i] == state.slots[i]
                    &&& item.needs_fallback ==> out.overflow == state.overflow.push(
                        (item.original_index, item.repo),
                    )
                    &&& !item.needs_fallback ==> out.overflow == state.overflow
                },
            }
            &&& item.status is Items ==> out.cache.contains_key(item.repo) && out.cache[item.repo]
                == (if overrides.contains_key(item.repo) {
                overrides[item.repo]
            } else {
                match item.fork_parent {
                    Some(parent) => parent,
                    None => Seq::empty(),
                }
            })
            &&& !(item.status is Items) ==> out.cache == state.cache
            &&& forall|repo: Seq<char>|
                repo != item.repo ==> #[trigger] out.cache.contains_key(repo)
                    == state.cache.contains_key(repo) && out.cache[repo] == state.cache[repo]
        }),
{
    let out = absorbed(state, item, overrides);
    if upstream_of(overrides, item) is Some {
        assert(out.targets.drop_last() =~= state.targets);
    }
}

/// Whether `out` is what a reply says of the repository at place `i` of a chunk: what an answer says
/// by its alias, what a query failed of, or that it took too long.
pub open spec fn reply_says(
    out: ChunkView,
    repo: ValidRepo,
    i: nat,
    reply: Reply<GraphQlEnvelope>,
    subscribed: Option<&SubscribedItems>,
) -> bool {
    &&& out.original_index == repo.original_index
    &&& out.repo == repo.repo@
    &&& match reply {
        Reply::Answer(envelope) => says_of_repo(out, repo, i, envelope, subscribed),
        Reply::Failed(e) => out.status == StatusView::Error(ErrorView::Api(failure_message(e@)))
            && !out.needs_fallback && out.fork_parent is None,
        Reply::TimedOut => out.status == StatusView::Error(ErrorView::Timeout)
            && !out.needs_fallback && out.fork_parent is None,
    }
}

/// Whether a reply says this of each repository of a chunk, in the chunk's order.
pub open spec fn chunk_says(
    out: Seq<ChunkView>,
    chunk: Seq<ValidRepo>,
    reply: Reply<GraphQlEnvelope>,
    subscribed: Option<&SubscribedItems>,
) -> bool {
    &&& out.len() == chunk.len()
    &&& forall|i: int|
        0 <= i < chunk.len() ==> reply_says(#[trigger] out[i], chunk[i], i as nat, reply, subscribed)
}

/// A reply is read for each repository of its chunk.
pub proof fn replies_are_read(
    chunk: Seq<ValidRepo>,
    reply: Reply<GraphQlEnvelope>,
    subscribed: Option<&SubscribedItems>,
)
    ensures
        chunk_says(replied(chunk, reply, subscribed), chunk, reply, subscribed),
{
    let out = replied(chunk, reply, subscribed);
    failed_queries_fail_all(chunk, reply, subscribed);
    assert forall|i: int| 0 <= i < chunk.len() implies reply_says(
        #[trigger] out[i],
        chunk[i],
        i as nat,
        reply,
        subscribed,
    ) by {
        failed_queries_fail_their_chunk(chunk, reply, subscribed, i);
        if let Reply::Answer(envelope) = reply {
            answers_are_read_by_alias(chunk, envelope, subscribed, i);
        }
    }
}

proof fn failed_queries_fail_all(
    chunk: Seq<ValidRepo>,
    reply: Reply<GraphQlEnvelope>,
    subscribed: Option<&SubscribedItems>,
)
    ensures
        replied(chunk, reply, subscribed).len() == chunk.len(),
{
    if chunk.len() > 0 {
        failed_queries_fail_their_chunk(chunk, reply, subscribed, 0);
    }
}

/// Whether `out` is what a reply to a search says of the fork at place `i` of a chunk.
pub open spec fn search_says(
    out: ResultView,
    target: ForkTarget,
    i: nat,
    reply: Reply<SearchEnvelope>,
) -> bool {
    &&& out.repo == target.repo@
    &&& out.upstream == Some(target.parent@)
    &&& match reply {
        Reply::Answer(envelope) => says_of_fork(out, target, i, envelope),
        Reply::Failed(e) => out.status == StatusView::Error(ErrorView::Api(failure_message(e@))),
        Reply::TimedOut => out.status == StatusView::Error(ErrorView::Timeout),
    }
}

/// Whether a reply to a search says this of each fork of a chunk, in the chunk's order.
pub open spec fn forks_say(
    out: Seq<(usize, ResultView)>,
    chunk: Seq<(usize, &ForkTarget)>,
    reply: Reply<SearchEnvelope>,
) -> bool {
    &&& out.len() == chunk.len()
    &&& forall|i: int|
        0 <= i < chunk.len() ==> (#[trigger] out[i]).0 == chunk[i].0 && search_says(
            out[i].1,
            *chunk[i].1,
            i as nat,
            reply,
        )
}

/// A reply to a search is read for each fork of its chunk.
pub proof fn searches_are_read(
    chunk: Seq<(usize, &ForkTarget)>,
    reply: Reply<SearchEnvelope>,
    clocks: Seq<Seq<Timestamp>>,
)
    ensures
        forks_say(search_replied(chunk, reply, clocks), chunk, reply),
{
    let out = search_replied(chunk, reply, clocks);
    searches_speak_of_their_forks(chunk, reply, clocks);
    assert forall|i: int| 0 <= i < chunk.len() implies (#[trigger] out[i]).0 == chunk[i].0
        && search_says(out[i].1, *chunk[i].1, i as nat, reply) by {
        failed_searches_fail_their_chunk(chunk, reply, clocks, i);
        if let Reply::Answer(envelope) = reply {
            searches_are_read_by_alias(chunk, envelope, clocks, i);
        }
    }
}

/// A query that failed fails each repository of its chunk with what it failed of, and one that took
/// too long is told as that.
pub proof fn failed_queries_fail_their_chunk(
    chunk: Seq<ValidRepo>,
    reply: Reply<GraphQlEnvelope>,
    subscribed: Option<&SubscribedItems>,
    i: int,
)
    requires
        0 <= i < chunk.len(),
    ensures
        replied(chunk, reply, subscribed).len() == chunk.len(),
        reply matches Reply::Failed(e) ==> replied(chunk, reply, subscribed)[i].status
            == StatusView::Error(ErrorView::Api(failure_message(e@))),
        reply is TimedOut ==> replied(chunk, reply, subscribed)[i].status == StatusView::Error(
            ErrorView::Timeout,
        ),
        !(reply is Answer) ==> !replied(chunk, reply, subscribed)[i].needs_fallback && replied(
            chunk,
            reply,
            subscribed,
        )[i].fork_parent is None,
        replied(chunk, reply, subscribed)[i].repo == chunk[i].repo@,
        replied(chunk, reply, subscribed)[i].original_index == chunk[i].original_index,
{
}

/// A search that failed fails each fork of its chunk with what it failed of, and one that took too
/// long is told as that; either tells the upstream.
pub proof fn failed_searches_fail_their_chunk(
    chunk: Seq<(usize, &ForkTarget)>,
    reply: Reply<SearchEnvelope>,
    clocks: Seq<Seq<Timestamp>>,
    i: int,
)
    requires
        0 <= i < chunk.len(),
    ensures
        ({
            let out = search_replied(chunk, reply, clocks);
            &&& out.len() == chunk.len()
            &&& out[i].0 == chunk[i].0
            &&& out[i].1.repo == chunk[i].1.repo@
            &&& out[i].1.upstream == Some(chunk[i].1.parent@)
            &&& reply matches Reply::Failed(e) ==> out[i].1.status == StatusView::Error(
                ErrorView::Api(failure_message(e@)),
            )
            &&& reply is TimedOut ==> out[i].1.status == StatusView::Error(ErrorView::Timeout)
        }),
{
}

/// A failure of the API is told as it is, and what took too long by how long it was waited for.
pub proof fn failures_are_told_to_the_user(text: Seq<char>)
    ensures
        error_message(ErrorView::Api(text)) == text,
        error_message(ErrorView::Timeout) == "timeout after 30s"@,
        FETCH_TIMEOUT_SECS == 30,
        CHUNK_TIMEOUT_SECS == 30,
{
}

/// Of each repository the result that came in is told, and where none did, that it took too long;
/// a fork with its upstream.
pub proof fn what_did_not_come_took_too_long(
    slots: Seq<Option<ResultView>>,
    repos: Seq<Seq<char>>,
    targets: Seq<ForkTarget>,
)
    ensures
        filled(slots, repos).len() == repos.len(),
        forall|i: int|
            0 <= i < repos.len() ==> match slots[i] {
                Some(result) => #[trigger] filled(slots, repos)[i] == result,
                None => filled(slots, repos)[i].repo == repos[i] && filled(slots, repos)[i].status
                    == StatusView::Error(ErrorView::Timeout) && filled(
                    slots,
                    repos,
                )[i].upstream is None,
            },
        forks_filled(slots, targets).len() == targets.len(),
        forall|i: int|
            0 <= i < targets.len() ==> match slots[i] {
                Some(result) => #[trigger] forks_filled(slots, targets)[i] == result,
                None => forks_filled(slots, targets)[i].repo == targets[i].repo@ && forks_filled(
                    slots,
                    targets,
                )[i].status == StatusView::Error(ErrorView::Timeout) && forks_filled(
                    slots,
                    targets,
                )[i].upstream == Some(targets[i].parent@),
            },
{
}

} // verus!
