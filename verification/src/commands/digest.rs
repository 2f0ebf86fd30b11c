//! Putting the digest together.
use vstd::prelude::*;
use vstd::string::*;

use crate::commands::list::projects_in;
use crate::config::{
    copy_names, copy_option, repos_override, repos_override_from_env, Config, ConfigView,
};
use crate::github::{
    cache_view, copy_cache, findings, findings_are_new, ApiFailure, ForkCache, RepoInfo,
};
use crate::gitlab::{label_of, project_label};
use crate::laws::digest::{repos_are_shown_to_the_viewer, shows};
use crate::laws::order::{in_digest_order, members_are_shared, the_digest_is_in_order};
use crate::model::{item_order, ItemView, RepoItem, RepoResult, RepoStatus, ResultView, StatusView};
use crate::name_map::map_of;
use crate::order::sorted;
use crate::sort::{has_items, items_in, ordered, sort_results, sorting_keeps_every_repo, SortMode};
use crate::text::{lower, opt_str, opt_text, same, same_ignoring_case, texts, views};

verus! {

broadcast use {vstd::string::group_string_axioms, vstd::std_specs::hash::group_hash_axioms};

/// How long the list of subscriptions may take.
pub const SUBSCRIBED_FETCH_TIMEOUT_SECS: u64 = 30;

/// Whether repositories are asked about in chunks: that interface answers nobody without a token.
pub fn use_graphql(has_token: bool) -> (res: bool)
    ensures
        res == has_token,
{
    has_token
}

/// The repositories of this digest: those that the environment names, else those watched.
pub open spec fn digest_repos(cfg: ConfigView, raw: Option<Seq<char>>) -> Seq<Seq<char>> {
    match repos_override(raw) {
        Some(repos) => repos,
        None => cfg.repos,
    }
}

/// The repositories of this digest. `raw` is the value of `$GHPENDING_REPOS`, which goes before
/// what is watched, for this once.
pub fn repos_to_fetch(cfg: &Config, raw: Option<&str>) -> (res: Vec<String>)
    ensures
        texts(res@) == digest_repos(cfg@, opt_str(raw)),
{
    match repos_override_from_env(raw) {
        Some(repos) => repos,
        None => copy_names(&cfg.repos),
    }
}

/// One thing that a digest fetches.
#[derive(Debug, PartialEq, Eq)]
pub enum FetchTask {
    Github(String),
    Gitlab { path: String, label: String },
}

/// What a `FetchTask` says.
pub enum TaskView {
    Github(Seq<char>),
    Gitlab { path: Seq<char>, label: Seq<char> },
}

impl View for FetchTask {
    type V = TaskView;

    open spec fn view(&self) -> TaskView {
        match self {
            FetchTask::Github(repo) => TaskView::Github(repo@),
            FetchTask::Gitlab { path, label } => TaskView::Gitlab { path: path@, label: label@ },
        }
    }
}

/// What the digest calls what a task fetches.
pub open spec fn task_label(task: TaskView) -> Seq<char> {
    match task {
        TaskView::Github(repo) => repo,
        TaskView::Gitlab { path: _, label } => label,
    }
}

impl FetchTask {
    /// What the digest calls what the task fetches.
    pub fn label(&self) -> (res: &str)
        ensures
            res@ == task_label(self@),
    {
        match self {
            FetchTask::Github(repo) => repo.as_str(),
            FetchTask::Gitlab { path: _, label } => label.as_str(),
        }
    }
}

/// What is fetched: the repositories, behind them the projects of the instance at `host`.
pub open spec fn tasks_for(
    repos: Seq<Seq<char>>,
    projects: Seq<Seq<char>>,
    host: Seq<char>,
) -> Seq<TaskView> {
    repos.map_values(|repo: Seq<char>| TaskView::Github(repo)) + projects.map_values(
        |path: Seq<char>| TaskView::Gitlab { path, label: label_of(host, path) },
    )
}

/// What is fetched: the repositories, behind them the projects of the instance at `host`.
pub fn fetch_tasks(repos: &Vec<String>, projects: &Vec<String>, host: &str) -> (res: Vec<FetchTask>)
    ensures
        views(res@) == tasks_for(texts(repos@), texts(projects@), host@),
{
    let ghost all = tasks_for(texts(repos@), texts(projects@), host@);
    let mut tasks: Vec<FetchTask> = Vec::new();
    let mut i: usize = 0;
    while i < repos.len()
        invariant
            i <= repos@.len(),
            tasks@.len() == i,
            all == tasks_for(texts(repos@), texts(projects@), host@),
            forall|k: int| 0 <= k < i ==> (#[trigger] tasks@[k])@ == all[k],
        decreases repos@.len() - i,
    {
        tasks.push(FetchTask::Github(repos[i].clone()));
        i = i + 1;
    }
    let mut j: usize = 0;
    while j < projects.len()
        invariant
            j <= projects@.len(),
            tasks@.len() == repos@.len() + j,
            all == tasks_for(texts(repos@), texts(projects@), host@),
            forall|k: int| 0 <= k < tasks@.len() ==> (#[trigger] tasks@[k])@ == all[k],
        decreases projects@.len() - j,
    {
        let path = projects[j].clone();
        let label = project_label(host, path.as_str());
        tasks.push(FetchTask::Gitlab { path, label });
        j = j + 1;
    }
    assert(views(tasks@) =~= all);
    tasks
}

/// What the digest calls what the tasks fetch, in their order.
pub open spec fn labels_of(tasks: Seq<TaskView>) -> Seq<Seq<char>> {
    tasks.map_values(|task: TaskView| task_label(task))
}

/// What the digest calls what the tasks fetch, in their order.
pub fn task_labels(tasks: &Vec<FetchTask>) -> (res: Vec<String>)
    ensures
        texts(res@) == labels_of(views(tasks@)),
{
    let mut res: Vec<String> = Vec::new();
    let mut i: usize = 0;
    while i < tasks.len()
        invariant
            i <= tasks@.len(),
            res@.len() == i,
            forall|k: int| 0 <= k < i ==> (#[trigger] res@[k])@ == task_label(tasks@[k]@),
        decreases tasks@.len() - i,
    {
        res.push(tasks[i].label().to_owned());
        i = i + 1;
    }
    assert(texts(res@) =~= labels_of(views(tasks@)));
    res
}

/// What `fresh` says goes before what `existing` says.
pub open spec fn merged(
    existing: Map<Seq<char>, Seq<char>>,
    fresh: Map<Seq<char>, Seq<char>>,
) -> Map<Seq<char>, Seq<char>> {
    existing.union_prefer_right(fresh)
}

fn same_value(a: Option<&String>, b: &String) -> (res: bool)
    ensures
        res == (a matches Some(a) && a@ == b@),
{
    match a {
        Some(a) => same(a.as_str(), b.as_str()),
        None => false,
    }
}

fn put_all(cache: &mut ForkCache, fresh: &ForkCache)
    ensures
        cache_view(final(cache)@) == merged(cache_view(old(cache)@), cache_view(fresh@)),
{
    let ghost first = cache_view(cache@);
    let entries = fresh.entries();
    let mut i: usize = 0;
    assert(entries@.take(0) =~= Seq::empty());
    assert(merged(first, cache_view(map_of(entries@.take(0)))) =~= first);
    while i < entries.len()
        invariant
            i <= entries@.len(),
            cache_view(cache@) == merged(first, cache_view(map_of(entries@.take(i as int)))),
        decreases entries@.len() - i,
    {
        let ghost had = cache@;
        let ghost next = entries@.take(i + 1);
        let ghost upto = cache_view(map_of(entries@.take(i as int)));
        assert(next.drop_last() =~= entries@.take(i as int));
        assert(next.last() == entries@[i as int]);
        let (key, value) = &entries[i];
        cache.insert(key.clone(), value.clone());
        assert(cache_view(cache@) =~= cache_view(had).insert(key@, value@));
        assert(cache_view(map_of(next)) =~= upto.insert(key@, value@));
        assert(merged(first, upto).insert(key@, value@) =~= merged(
            first,
            upto.insert(key@, value@),
        ));
        i = i + 1;
    }
    assert(entries@.take(i as int) =~= entries@);
}

fn adds_nothing(existing: &ForkCache, fresh: &ForkCache) -> (res: bool)
    ensures
        res == (merged(cache_view(existing@), cache_view(fresh@)) == cache_view(existing@)),
{
    let ghost known = cache_view(existing@);
    let ghost new = cache_view(fresh@);
    let entries = fresh.entries();
    let mut i: usize = 0;
    assert(entries@.take(0) =~= Seq::empty());
    while i < entries.len()
        invariant
            i <= entries@.len(),
            map_of(entries@) == fresh@,
            known == cache_view(existing@),
            new == cache_view(fresh@),
            forall|key: Seq<char>| #[trigger]
                map_of(entries@.take(i as int)).contains_key(key) ==> known.contains_key(key)
                    && new.contains_key(key) && known[key] == new[key],
        decreases entries@.len() - i,
    {
        let ghost next = entries@.take(i + 1);
        assert(next.drop_last() =~= entries@.take(i as int));
        assert(next.last() == entries@[i as int]);
        let (key, _) = &entries[i];
        proof {
            crate::name_map::names_are_in(entries@, i as int);
        }
        if let Some(value) = fresh.get(key.as_str()) {
            if !same_value(existing.get(key.as_str()), value) {
                assert(merged(known, new)[key@] == new[key@]);
                assert(merged(known, new).contains_key(key@));
                return false;
            }
            assert(known[key@] == new[key@]);
        }
        assert forall|name: Seq<char>| #[trigger] map_of(next).contains_key(name) implies
            known.contains_key(name) && new.contains_key(name) && known[name] == new[name] by {
            assert(name == key@ || map_of(entries@.take(i as int)).contains_key(name));
        }
        i = i + 1;
    }
    assert(entries@.take(i as int) =~= entries@);
    assert(merged(known, new) =~= known);
    true
}

/// What is known of forks with what was found out now; none where that changes nothing. What was
/// not asked about, or not answered, stays known.
pub fn merge_fork_cache(existing: &ForkCache, fresh: ForkCache) -> (res: Option<ForkCache>)
    ensures
        ({
            let all = merged(cache_view(existing@), cache_view(fresh@));
            match res {
                Some(cache) => all != cache_view(existing@) && cache_view(cache@) == all,
                None => all == cache_view(existing@),
            }
        }),
{
    if adds_nothing(existing, &fresh) {
        return None;
    }
    let mut all = copy_cache(existing);
    put_all(&mut all, &fresh);
    Some(all)
}

/// Remembers what was found out of forks. The result says whether that changes the configuration.
pub fn remember_forks(cfg: &mut Config, fresh: ForkCache) -> (res: bool)
    ensures
        final(cfg)@ == (ConfigView {
            forks: merged(old(cfg)@.forks, cache_view(fresh@)),
            ..old(cfg)@
        }),
        res == (final(cfg)@.forks != old(cfg)@.forks),
        forall|repo: Seq<char>| #[trigger]
            final(cfg)@.forks.contains_key(repo) == (old(cfg)@.forks.contains_key(repo)
                || fresh@.contains_key(repo)),
        forall|repo: Seq<char>| #[trigger]
            fresh@.contains_key(repo) ==> final(cfg)@.forks[repo] == fresh@[repo]@,
        forall|repo: Seq<char>| #[trigger]
            old(cfg)@.forks.contains_key(repo) && !fresh@.contains_key(repo) ==>
                old(cfg)@.forks[repo] == final(cfg)@.forks[repo],
{
    match merge_fork_cache(&cfg.forks, fresh) {
        Some(forks) => {
            cfg.forks = forks;
            true
        },
        None => false,
    }
}

/// Whatever a digest finds out is added to what is known: nothing known is lost, and where it
/// says something new, the new goes.
pub proof fn merging_loses_nothing(
    existing: Map<Seq<char>, Seq<char>>,
    fresh: Map<Seq<char>, Seq<char>>,
)
    ensures
        forall|repo: Seq<char>| #[trigger]
            merged(existing, fresh).contains_key(repo) == (existing.contains_key(repo)
                || fresh.contains_key(repo)),
        forall|repo: Seq<char>| #[trigger]
            fresh.contains_key(repo) ==> merged(existing, fresh)[repo] == fresh[repo],
        forall|repo: Seq<char>| #[trigger]
            existing.contains_key(repo) && !fresh.contains_key(repo) ==> merged(
                existing,
                fresh,
            )[repo] == existing[repo],
        merged(merged(existing, fresh), fresh) == merged(existing, fresh),
{
    assert(merged(merged(existing, fresh), fresh) =~= merged(existing, fresh));
}

/// What was known of forks before repositories were fetched one by one stands as it was once their
/// findings are remembered.
pub proof fn findings_leave_what_was_known(
    repos: Seq<Seq<char>>,
    forks: Map<Seq<char>, Seq<char>>,
    done: Seq<(usize, Result<RepoInfo, ApiFailure>)>,
)
    requires
        forall|k: int| 0 <= k < done.len() ==> (#[trigger] done[k]).0 < repos.len(),
    ensures
        forks.submap_of(merged(forks, findings(repos, forks, done))),
{
    findings_are_new(repos, forks, done);
    let found = findings(repos, forks, done);
    assert forall|name: Seq<char>| #[trigger] forks.contains_key(name) implies merged(
        forks,
        found,
    ).contains_key(name) && merged(forks, found)[name] == forks[name] by {
        assert(!found.contains_key(name));
    }
}

/// The repositories that the environment names never become the watched ones: what a digest
/// writes back differs from what it read in what is known of forks alone.
pub proof fn override_is_not_written_back(
    before: ConfigView,
    after: ConfigView,
    fresh: Map<Seq<char>, Seq<char>>,
)
    requires
        after == (ConfigView { forks: merged(before.forks, fresh), ..before }),
    ensures
        after.repos == before.repos,
        after.user == before.user,
        after.gitlab == before.gitlab,
        after.sort == before.sort,
        after.theme == before.theme,
{
}

/// Who the user of the digest is: the account of the token, else the configured one.
pub open spec fn viewer_of(
    has_token: bool,
    login: Option<Seq<char>>,
    user: Option<Seq<char>>,
) -> Option<Seq<char>> {
    if has_token && login is Some {
        login
    } else {
        user
    }
}

/// Who the user of the digest is. `login` is the account of the token, where that could be found
/// out.
pub fn resolve_viewer(has_token: bool, login: Option<String>, cfg: &Config) -> (res: Option<String>)
    ensures
        opt_text(res) == viewer_of(has_token, opt_text(login), cfg@.user),
{
    if has_token {
        if let Some(login) = login {
            return Some(login);
        }
    }
    copy_option(&cfg.user)
}

/// An item, marked as the viewer's own where they wrote it.
pub open spec fn marked(item: ItemView, viewer: Option<Seq<char>>) -> ItemView {
    ItemView {
        mine: match viewer {
            Some(viewer) => lower(viewer) == lower(item.author),
            None => false,
        },
        ..item
    }
}

/// "Is the viewer's own" as a predicate value.
pub open spec fn own() -> spec_fn(ItemView) -> bool {
    |item: ItemView| item.mine
}

/// "Is not the viewer's own" as a predicate value.
pub open spec fn others() -> spec_fn(ItemView) -> bool {
    |item: ItemView| !item.mine
}

/// The items of others, behind them the viewer's own, each in the order that they had.
pub open spec fn others_first(items: Seq<ItemView>) -> Seq<ItemView> {
    items.filter(others()) + items.filter(own())
}

/// The items of a repository, marked and ordered for the viewer.
pub open spec fn for_viewer(items: Seq<ItemView>, viewer: Option<Seq<char>>) -> Seq<ItemView> {
    others_first(items.map_values(|item: ItemView| marked(item, viewer)))
}

/// The result of a repository, marked and ordered for the viewer. What shows the items at an
/// upstream stays as it is.
pub open spec fn result_for_viewer(result: ResultView, viewer: Option<Seq<char>>) -> ResultView {
    match (result.upstream, result.status) {
        (None, StatusView::Items(items)) => ResultView {
            status: StatusView::Items(for_viewer(items, viewer)),
            ..result
        },
        _ => result,
    }
}

fn is_mine(author: &str, viewer: Option<&str>) -> (res: bool)
    ensures
        res == (match viewer {
            Some(viewer) => lower(viewer@) == lower(author@),
            None => false,
        }),
{
    match viewer {
        Some(viewer) => same_ignoring_case(viewer, author),
        None => false,
    }
}

fn order_for_viewer(items: Vec<RepoItem>, viewer: Option<&str>) -> (res: Vec<RepoItem>)
    ensures
        views(res@) == for_viewer(views(items@), opt_str(viewer)),
{
    let ghost all = views(items@).map_values(|item: ItemView| marked(item, opt_str(viewer)));
    let mut theirs: Vec<RepoItem> = Vec::new();
    let mut mine: Vec<RepoItem> = Vec::new();
    proof {
        reveal(Seq::filter);
    }
    assert(all.take(0) =~= Seq::empty());
    assert(views(theirs@) =~= Seq::empty());
    assert(views(mine@) =~= Seq::empty());
    for item in it: items
        invariant
            it.seq() == items@,
            all == views(items@).map_values(|item: ItemView| marked(item, opt_str(viewer))),
            views(theirs@) == all.take(it.index() as int).filter(others()),
            views(mine@) == all.take(it.index() as int).filter(own()),
    {
        let ghost had = (views(theirs@), views(mine@));
        let ghost next = all.take(it.index() + 1);
        proof {
            reveal(Seq::filter);
        }
        assert(next.drop_last() =~= all.take(it.index() as int));
        assert(next.last() == marked(item@, opt_str(viewer)));
        let mut item = item;
        item.mine = is_mine(item.author.as_str(), viewer);
        if item.mine {
            mine.push(item);
            assert(views(mine@) =~= had.1.push(item@));
        } else {
            theirs.push(item);
            assert(views(theirs@) =~= had.0.push(item@));
        }
    }
    assert(all.take(all.len() as int) =~= all);
    let ghost ahead = views(theirs@);
    let ghost behind = views(mine@);
    theirs.append(&mut mine);
    assert(views(theirs@) =~= ahead + behind);
    theirs
}

/// Marks the viewer's own items and puts those of others in front. What shows the items at an
/// upstream stays as it is.
pub fn mark_and_order_items(results: &mut Vec<RepoResult>, viewer: Option<&str>)
    ensures
        views(final(results)@) == views(old(results)@).map_values(
            |result: ResultView| result_for_viewer(result, opt_str(viewer)),
        ),
        views(final(results)@).len() == views(old(results)@).len(),
        forall|i: int|
            0 <= i < views(old(results)@).len() ==> shows(
                views(old(results)@)[i],
                opt_str(viewer),
                #[trigger] views(final(results)@)[i],
            ),
{
    proof {
        assert forall|result: ResultView|
            shows(result, opt_str(viewer), #[trigger] result_for_viewer(result, opt_str(viewer))) by {
            repos_are_shown_to_the_viewer(result, opt_str(viewer));
        }
    }
    let ghost wanted = views(results@).map_values(
        |result: ResultView| result_for_viewer(result, opt_str(viewer)),
    );
    let mut taken: Vec<RepoResult> = Vec::new();
    std::mem::swap(results, &mut taken);
    let mut done: Vec<RepoResult> = Vec::new();
    assert(views(done@) =~= wanted.take(0));
    for result in it: taken
        invariant
            it.seq() == taken@,
            wanted == views(taken@).map_values(
                |result: ResultView| result_for_viewer(result, opt_str(viewer)),
            ),
            views(done@) == wanted.take(it.index() as int),
    {
        let ghost had = views(done@);
        let ghost next = result_for_viewer(result@, opt_str(viewer));
        let status = if result.upstream.is_some() {
            result.status
        } else {
            match result.status {
                RepoStatus::Items(items) => RepoStatus::Items(order_for_viewer(items, viewer)),
                other => other,
            }
        };
        let shown = RepoResult { repo: result.repo, status, upstream: result.upstream };
        assert(shown@ == next);
        done.push(shown);
        assert(views(done@) =~= had.push(next));
        assert(wanted.take(it.index() + 1) =~= wanted.take(it.index() as int).push(next));
    }
    assert(wanted.take(wanted.len() as int) =~= wanted);
    std::mem::swap(results, &mut done);
}

/// The items of others stand in front of the viewer's own, and nothing is added or lost.
pub proof fn others_stand_in_front(items: Seq<ItemView>, viewer: Option<Seq<char>>)
    ensures
        for_viewer(items, viewer).len() == items.len(),
        forall|i: int, j: int|
            #![trigger for_viewer(items, viewer)[i], for_viewer(items, viewer)[j]]
            0 <= i < j < items.len() && for_viewer(items, viewer)[i].mine ==> for_viewer(
                items,
                viewer,
            )[j].mine,
        viewer is None ==> forall|i: int|
            0 <= i < items.len() ==> !(#[trigger] for_viewer(items, viewer)[i]).mine,
{
    let all = items.map_values(|item: ItemView| marked(item, viewer));
    filters_share(all);
    let theirs = all.filter(others());
    let mine = all.filter(own());
    let out = for_viewer(items, viewer);
    assert forall|i: int, j: int|
        #![trigger out[i], out[j]]
        0 <= i < j < items.len() && out[i].mine implies out[j].mine by {
        if i < theirs.len() {
            assert(out[i] == theirs[i]);
            all.lemma_filter_pred(others(), i);
        } else {
            assert(out[j] == mine[j - theirs.len()]);
            all.lemma_filter_pred(own(), j - theirs.len());
        }
    }
    if viewer is None {
        assert forall|i: int| 0 <= i < items.len() implies !(#[trigger] out[i]).mine by {
            if i < theirs.len() {
                all.lemma_filter_pred(others(), i);
            } else {
                let k = i - theirs.len();
                assert(mine.contains(mine[k]));
                all.lemma_filter_contains_rev(own(), mine[k]);
            }
        }
    }
}

proof fn filters_share(items: Seq<ItemView>)
    ensures
        items.filter(others()).len() + items.filter(own()).len() == items.len(),
    decreases items.len(),
{
    reveal(Seq::filter);
    if items.len() > 0 {
        filters_share(items.drop_last());
    }
}

/// Where the items stand in the order of the listing, those of others do too, and so do the
/// viewer's own.
pub proof fn groups_keep_the_listing(items: Seq<ItemView>)
    requires
        sorted(items, item_order()),
    ensures
        sorted(items.filter(others()), item_order()),
        sorted(items.filter(own()), item_order()),
{
    filter_keeps_sorted(items, others());
    filter_keeps_sorted(items, own());
}

proof fn filter_keeps_sorted(items: Seq<ItemView>, p: spec_fn(ItemView) -> bool)
    requires
        sorted(items, item_order()),
    ensures
        sorted(items.filter(p), item_order()),
    decreases items.len(),
{
    reveal(Seq::filter);
    if items.len() > 0 {
        let t = items.drop_last();
        let before = item_order();
        assert forall|i: int, j: int| #![trigger t[i], t[j]] 0 <= i < j < t.len() implies !before(
            t[j],
            t[i],
        ) by {
            assert(t[i] == items[i] && t[j] == items[j]);
        }
        filter_keeps_sorted(t, p);
        let f = t.filter(p);
        if p(items.last()) {
            let out = items.filter(p);
            assert(out =~= f.push(items.last()));
            assert forall|i: int, j: int|
                #![trigger out[i], out[j]]
                0 <= i < j < out.len() implies !before(out[j], out[i]) by {
                if j == f.len() {
                    assert(f.contains(f[i]));
                    t.lemma_filter_contains_rev(p, f[i]);
                    let k = choose|k: int| 0 <= k < t.len() && t[k] == f[i];
                    assert(items[k] == f[i]);
                    assert(!before(items[items.len() - 1], items[k]));
                } else {
                    assert(out[i] == f[i] && out[j] == f[j]);
                }
            }
        }
    }
}

/// What shows the items at an upstream is left as it is.
pub proof fn forks_are_left_alone(result: ResultView, viewer: Option<Seq<char>>)
    requires
        result.upstream is Some,
    ensures
        result_for_viewer(result, viewer) == result,
{
}

/// Whether there were fetches and none of them brought anything.
pub open spec fn all_failed(results: Seq<ResultView>) -> bool {
    results.len() > 0 && forall|i: int|
        0 <= i < results.len() ==> (#[trigger] results[i]).status is Error
}

/// Whether there were fetches and none of them brought anything. What is not found is an answer.
pub fn all_repo_fetches_failed(results: &[RepoResult]) -> (res: bool)
    ensures
        res == all_failed(views(results@)),
{
    let ghost all = views(results@);
    let mut i: usize = 0;
    while i < results.len()
        invariant
            i <= results@.len(),
            all == views(results@),
            forall|k: int| 0 <= k < i ==> (#[trigger] all[k]).status is Error,
        decreases results@.len() - i,
    {
        match &results[i].status {
            RepoStatus::Error(_) => {},
            _ => {
                assert(!(all[i as int].status is Error));
                return false;
            },
        }
        i = i + 1;
    }
    results.len() > 0
}

/// What a digest does first.
#[derive(Debug)]
pub enum DigestStep {
    /// Tell the user that there is nothing to fetch, and be done.
    Nothing(String),
    /// Fetch these repositories and what is watched at GitLab.
    Fetch(Vec<String>),
}

/// What a `DigestStep` says.
pub enum DigestStepView {
    Nothing(Seq<char>),
    Fetch(Seq<Seq<char>>),
}

impl View for DigestStep {
    type V = DigestStepView;

    open spec fn view(&self) -> DigestStepView {
        match self {
            DigestStep::Nothing(message) => DigestStepView::Nothing(message@),
            DigestStep::Fetch(repos) => DigestStepView::Fetch(texts(repos@)),
        }
    }
}

/// What a digest does first.
pub open spec fn digest_first(cfg: ConfigView, raw: Option<Seq<char>>) -> DigestStepView {
    if digest_repos(cfg, raw).len() == 0 && projects_in(cfg).len() == 0 {
        DigestStepView::Nothing("No repos tracked. Run `ghpending add` to get started."@)
    } else {
        DigestStepView::Fetch(digest_repos(cfg, raw))
    }
}

/// What a digest does first. `raw` is the value of `$GHPENDING_REPOS`.
pub fn digest_start(cfg: &Config, raw: Option<&str>) -> (res: DigestStep)
    ensures
        res@ == digest_first(cfg@, opt_str(raw)),
{
    let repos = repos_to_fetch(cfg, raw);
    let projects = match &cfg.gitlab {
        Some(gitlab) => gitlab.projects.len(),
        None => 0,
    };
    assert(texts(repos@).len() == repos@.len());
    if repos.len() == 0 && projects == 0 {
        DigestStep::Nothing("No repos tracked. Run `ghpending add` to get started.".to_owned())
    } else {
        DigestStep::Fetch(repos)
    }
}

/// The results as the digest shows them.
pub open spec fn arranged(
    results: Seq<ResultView>,
    viewer: Option<Seq<char>>,
    mode: SortMode,
) -> Seq<ResultView> {
    ordered(
        results.map_values(|result: ResultView| result_for_viewer(result, viewer)),
        mode,
    )
}

/// Puts the results as the digest shows them: items marked and ordered for the viewer, then the
/// repositories by the mode. The result says whether every fetch failed.
pub fn arrange(results: &mut Vec<RepoResult>, viewer: Option<&str>, mode: SortMode) -> (res: bool)
    ensures
        views(final(results)@) == arranged(views(old(results)@), opt_str(viewer), mode),
        res == all_failed(views(final(results)@)),
        exists|shown: Seq<ResultView>| #[trigger]
            in_digest_order(views(final(results)@), shown, mode) && shown.len() == views(
                old(results)@,
            ).len() && forall|i: int|
                0 <= i < shown.len() ==> shows(
                    views(old(results)@)[i],
                    opt_str(viewer),
                    #[trigger] shown[i],
                ),
        res <==> views(old(results)@).len() > 0 && forall|i: int|
            0 <= i < views(old(results)@).len() ==> (#[trigger] views(
                old(results)@,
            )[i]).status is Error,
{
    let ghost before = views(results@);
    mark_and_order_items(results, viewer);
    let ghost shown = views(results@);
    proof {
        the_digest_is_in_order(shown, mode);
        members_are_shared(ordered(shown, mode), shown);
        failures_outlive_sorting(before, shown, ordered(shown, mode), opt_str(viewer));
    }
    sort_results(results, mode);
    all_repo_fetches_failed(results.as_slice())
}

proof fn failures_outlive_sorting(
    before: Seq<ResultView>,
    shown: Seq<ResultView>,
    after: Seq<ResultView>,
    viewer: Option<Seq<char>>,
)
    requires
        shown.len() == before.len(),
        after.len() == shown.len(),
        forall|i: int| 0 <= i < shown.len() ==> shows(before[i], viewer, #[trigger] shown[i]),
        forall|x: ResultView| after.contains(x) == shown.contains(x),
    ensures
        all_failed(after) <==> before.len() > 0 && forall|i: int|
            0 <= i < before.len() ==> (#[trigger] before[i]).status is Error,
{
    assert forall|i: int| 0 <= i < before.len() implies (#[trigger] before[i]).status is Error
        == shown[i].status is Error by {
        assert(shows(before[i], viewer, shown[i]));
    }
    if all_failed(after) {
        assert forall|i: int| 0 <= i < before.len() implies (#[trigger] before[i]).status is Error by {
            assert(shown.contains(shown[i]));
            assert(after.contains(shown[i]));
            let k = choose|k: int| 0 <= k < after.len() && after[k] == shown[i];
            assert(after[k].status is Error);
        }
    }
    if before.len() > 0 && forall|i: int|
        0 <= i < before.len() ==> (#[trigger] before[i]).status is Error {
        assert forall|k: int| 0 <= k < after.len() implies (#[trigger] after[k]).status is Error by {
            assert(after.contains(after[k]));
            assert(shown.contains(after[k]));
            let i = choose|i: int| 0 <= i < shown.len() && shown[i] == after[k];
            assert(before[i].status is Error);
        }
    }
}

/// Arranging neither adds nor loses a repository, and what a repository's fetch came to stays.
pub proof fn arranging_keeps_every_repo(
    results: Seq<ResultView>,
    viewer: Option<Seq<char>>,
    mode: SortMode,
)
    ensures
        arranged(results, viewer, mode).len() == results.len(),
        arranged(results, viewer, mode).to_multiset() == results.map_values(
            |result: ResultView| result_for_viewer(result, viewer),
        ).to_multiset(),
        forall|i: int|
            0 <= i < results.len() ==> {
                let shown = result_for_viewer(#[trigger] results[i], viewer);
                &&& shown.repo == results[i].repo
                &&& shown.upstream == results[i].upstream
                &&& has_items(shown) == has_items(results[i])
                &&& items_in(shown).len() == items_in(results[i]).len()
            },
{
    let shown = results.map_values(|result: ResultView| result_for_viewer(result, viewer));
    sorting_keeps_every_repo(shown, mode);
    assert forall|i: int| 0 <= i < results.len() implies items_in(
        result_for_viewer(#[trigger] results[i], viewer),
    ).len() == items_in(results[i]).len() by {
        if let StatusView::Items(items) = results[i].status {
            others_stand_in_front(items, viewer);
        }
    }
}

} // verus!
