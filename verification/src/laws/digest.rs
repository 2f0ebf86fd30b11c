//! Laws on putting the digest together.
use vstd::prelude::*;

use crate::commands::digest::{
    all_failed, arranged, digest_first, digest_repos, for_viewer, labels_of, marked, others,
    others_stand_in_front, own, result_for_viewer, task_label, tasks_for, viewer_of, DigestStepView,
    TaskView,
};
use crate::config::ConfigView;
use crate::gitlab::label_of;
use crate::laws::order::{digest_order_keeps_every_repo, same_members};
use crate::laws::text::{lower_case_forgets_case_alone, same_but_for_case};
use crate::laws::watch::{named_for_once, tracked_projects};
use crate::model::{ItemView, ResultView, StatusView};
use crate::order::filter_none;
use crate::sort::SortMode;

verus! {

/// Whether the viewer wrote an item; the case of the login makes no difference.
pub open spec fn wrote(viewer: Option<Seq<char>>, item: ItemView) -> bool {
    viewer matches Some(login) && same_but_for_case(login, item.author)
}

/// "Was written by the viewer" as a predicate value.
pub open spec fn by_viewer(viewer: Option<Seq<char>>) -> spec_fn(ItemView) -> bool {
    |item: ItemView| wrote(viewer, item)
}

/// "Was written by another" as a predicate value.
pub open spec fn by_others(viewer: Option<Seq<char>>) -> spec_fn(ItemView) -> bool {
    |item: ItemView| !wrote(viewer, item)
}

/// An item but for the mark of the viewer's own.
pub open spec fn unmarked(item: ItemView) -> ItemView {
    ItemView { mine: false, ..item }
}

/// Items but for the mark of the viewer's own.
pub open spec fn all_unmarked(items: Seq<ItemView>) -> Seq<ItemView> {
    items.map_values(|item: ItemView| unmarked(item))
}

/// Whether `out` shows `items` to the viewer: the viewer's own are marked, and no others; those of
/// others stand in front, each group in the order that it had, and nothing else of an item changes.
pub open spec fn shown_to(
    items: Seq<ItemView>,
    viewer: Option<Seq<char>>,
    out: Seq<ItemView>,
) -> bool {
    &&& out.len() == items.len()
    &&& forall|k: int| 0 <= k < out.len() ==> (#[trigger] out[k]).mine == wrote(viewer, out[k])
    &&& forall|i: int, j: int|
        #![trigger out[i], out[j]]
        0 <= i < j < out.len() && out[i].mine ==> out[j].mine
    &&& all_unmarked(out.filter(|item: ItemView| !item.mine)) == all_unmarked(
        items.filter(by_others(viewer)),
    )
    &&& all_unmarked(out.filter(|item: ItemView| item.mine)) == all_unmarked(
        items.filter(by_viewer(viewer)),
    )
}

proof fn marks_tell_the_author(item: ItemView, viewer: Option<Seq<char>>)
    ensures
        marked(item, viewer).mine == wrote(viewer, item),
        wrote(viewer, marked(item, viewer)) == wrote(viewer, item),
        unmarked(marked(item, viewer)) == unmarked(item),
{
    if let Some(login) = viewer {
        lower_case_forgets_case_alone(login, item.author);
    }
}

proof fn filters_see_the_marks(items: Seq<ItemView>, viewer: Option<Seq<char>>)
    ensures
        ({
            let all = items.map_values(|item: ItemView| marked(item, viewer));
            &&& all_unmarked(all.filter(others())) == all_unmarked(
                items.filter(by_others(viewer)),
            )
            &&& all_unmarked(all.filter(own())) == all_unmarked(
                items.filter(by_viewer(viewer)),
            )
        }),
    decreases items.len(),
{
    reveal(Seq::filter);
    let all = items.map_values(|item: ItemView| marked(item, viewer));
    if items.len() > 0 {
        let t = items.drop_last();
        let x = items.last();
        filters_see_the_marks(t, viewer);
        marks_tell_the_author(x, viewer);
        let head = t.map_values(|item: ItemView| marked(item, viewer));
        assert(all.drop_last() =~= head);
        assert(all.last() == marked(x, viewer));
        let (theirs, mine) = (head.filter(others()), head.filter(own()));
        let (p, q) = (by_others(viewer), by_viewer(viewer));
        if wrote(viewer, x) {
            assert(all.filter(others()) =~= theirs);
            assert(items.filter(p) =~= t.filter(p));
            assert(all.filter(own()) =~= mine.push(marked(x, viewer)));
            assert(items.filter(q) =~= t.filter(q).push(x));
            assert(all_unmarked(mine.push(marked(x, viewer))) =~= all_unmarked(mine).push(
                unmarked(x),
            ));
            assert(all_unmarked(t.filter(q).push(x)) =~= all_unmarked(t.filter(q)).push(
                unmarked(x),
            ));
        } else {
            assert(all.filter(own()) =~= mine);
            assert(items.filter(q) =~= t.filter(q));
            assert(all.filter(others()) =~= theirs.push(marked(x, viewer)));
            assert(items.filter(p) =~= t.filter(p).push(x));
            assert(all_unmarked(theirs.push(marked(x, viewer))) =~= all_unmarked(theirs).push(
                unmarked(x),
            ));
            assert(all_unmarked(t.filter(p).push(x)) =~= all_unmarked(t.filter(p)).push(
                unmarked(x),
            ));
        }
    } else {
        assert(all_unmarked(all.filter(others())) =~= all_unmarked(
            items.filter(by_others(viewer)),
        ));
        assert(all_unmarked(all.filter(own())) =~= all_unmarked(
            items.filter(by_viewer(viewer)),
        ));
    }
}

proof fn filter_all<T>(s: Seq<T>, p: spec_fn(T) -> bool)
    requires
        forall|i: int| 0 <= i < s.len() ==> p(#[trigger] s[i]),
    ensures
        s.filter(p) == s,
    decreases s.len(),
{
    reveal(Seq::filter);
    if s.len() > 0 {
        let t = s.drop_last();
        assert forall|i: int| 0 <= i < t.len() implies p(#[trigger] t[i]) by {
            assert(t[i] == s[i]);
        }
        filter_all(t, p);
        assert(s.last() == s[s.len() - 1]);
        assert(t.push(s.last()) =~= s);
    }
}

proof fn viewers_see_their_own_last(items: Seq<ItemView>, viewer: Option<Seq<char>>)
    ensures
        shown_to(items, viewer, for_viewer(items, viewer)),
{
    let all = items.map_values(|item: ItemView| marked(item, viewer));
    let theirs = all.filter(others());
    let mine = all.filter(own());
    let out = for_viewer(items, viewer);
    others_stand_in_front(items, viewer);
    filters_see_the_marks(items, viewer);
    assert forall|k: int| 0 <= k < theirs.len() implies !(#[trigger] theirs[k]).mine && wrote(
        viewer,
        theirs[k],
    ) == theirs[k].mine by {
        all.lemma_filter_pred(others(), k);
        assert(theirs.contains(theirs[k]));
        all.lemma_filter_contains_rev(others(), theirs[k]);
        let m = choose|m: int| 0 <= m < all.len() && all[m] == theirs[k];
        marks_tell_the_author(items[m], viewer);
    }
    assert forall|k: int| 0 <= k < mine.len() implies (#[trigger] mine[k]).mine && wrote(
        viewer,
        mine[k],
    ) == mine[k].mine by {
        all.lemma_filter_pred(own(), k);
        assert(mine.contains(mine[k]));
        all.lemma_filter_contains_rev(own(), mine[k]);
        let m = choose|m: int| 0 <= m < all.len() && all[m] == mine[k];
        marks_tell_the_author(items[m], viewer);
    }
    assert forall|k: int| 0 <= k < out.len() implies (#[trigger] out[k]).mine == wrote(
        viewer,
        out[k],
    ) by {
        if k < theirs.len() {
            assert(out[k] == theirs[k]);
        } else {
            assert(out[k] == mine[k - theirs.len()]);
        }
    }
    let not_mine = |item: ItemView| !item.mine;
    let is_mine = |item: ItemView| item.mine;
    Seq::filter_distributes_over_add(theirs, mine, not_mine);
    Seq::filter_distributes_over_add(theirs, mine, is_mine);
    filter_all(theirs, not_mine);
    filter_all(mine, is_mine);
    filter_none(theirs, is_mine);
    filter_none(mine, not_mine);
    assert(out.filter(not_mine) =~= theirs);
    assert(out.filter(is_mine) =~= mine);
}

/// Whether `out` shows a repository to the viewer: by its name, with its items marked and those of
/// others in front. What shows the items at an upstream, and what has none to show, is left as it
/// is.
pub open spec fn shows(result: ResultView, viewer: Option<Seq<char>>, out: ResultView) -> bool {
    &&& out.repo == result.repo
    &&& out.upstream == result.upstream
    &&& result.upstream is Some ==> out == result
    &&& !(result.status is Items) ==> out == result
    &&& result.upstream is None ==> (result.status matches StatusView::Items(items) ==> (
    out.status matches StatusView::Items(shown) && shown_to(items, viewer, shown)))
}

/// Every repository is shown as the viewer is to see it.
pub proof fn repos_are_shown_to_the_viewer(result: ResultView, viewer: Option<Seq<char>>)
    ensures
        shows(result, viewer, result_for_viewer(result, viewer)),
{
    if let StatusView::Items(items) = result.status {
        viewers_see_their_own_last(items, viewer);
    }
}

/// The digest shows every repository as the viewer is to see it, and nothing else, whatever the
/// order.
pub proof fn the_digest_shows_every_repo(
    results: Seq<ResultView>,
    viewer: Option<Seq<char>>,
    mode: SortMode,
)
    ensures
        arranged(results, viewer, mode).len() == results.len(),
        same_members(
            arranged(results, viewer, mode),
            results.map_values(|result: ResultView| result_for_viewer(result, viewer)),
        ),
{
    digest_order_keeps_every_repo(
        results.map_values(|result: ResultView| result_for_viewer(result, viewer)),
        mode,
    );
}

/// The viewer is whom the token belongs to, where there is a token and that is known; else the
/// configured account is.
pub proof fn the_token_tells_the_viewer(
    has_token: bool,
    login: Option<Seq<char>>,
    user: Option<Seq<char>>,
)
    ensures
        has_token ==> (login matches Some(name) ==> viewer_of(has_token, login, user) == Some(name)),
        !has_token || login is None ==> viewer_of(has_token, login, user) == user,
{
}

/// A digest counts as failed just where something was fetched and each fetch failed; what is not
/// found was answered.
pub proof fn one_answer_is_no_failure(results: Seq<ResultView>)
    ensures
        results.len() == 0 ==> !all_failed(results),
        (exists|i: int| 0 <= i < results.len() && !((#[trigger] results[i]).status is Error))
            ==> !all_failed(results),
        results.len() > 0 && (forall|i: int|
            0 <= i < results.len() ==> (#[trigger] results[i]).status is Error) ==> all_failed(
            results,
        ),
{
}

/// A digest is about the repositories that the environment names, where it names any, else about
/// those that are watched; there is nothing to fetch just where there are none of either and no
/// watched projects.
pub proof fn the_environment_names_the_repos(cfg: ConfigView, raw: Option<Seq<char>>)
    ensures
        ({
            let named = match raw {
                Some(raw) => named_for_once(raw),
                None => Seq::empty(),
            };
            let repos = if named.len() > 0 {
                named
            } else {
                cfg.repos
            };
            &&& digest_repos(cfg, raw) == repos
            &&& repos.len() == 0 && tracked_projects(cfg).len() == 0 ==> digest_first(cfg, raw)
                == DigestStepView::Nothing(
                "No repos tracked. Run `ghpending add` to get started."@,
            )
            &&& repos.len() > 0 || tracked_projects(cfg).len() > 0 ==> digest_first(cfg, raw)
                == DigestStepView::Fetch(repos)
        }),
{
}

/// What is fetched are the repositories in their order and behind them the projects in theirs, each
/// project by its path and under its label.
pub proof fn everything_is_fetched_in_order(
    repos: Seq<Seq<char>>,
    projects: Seq<Seq<char>>,
    host: Seq<char>,
)
    ensures
        ({
            let out = tasks_for(repos, projects, host);
            let n = repos.len();
            &&& out.len() == n + projects.len()
            &&& labels_of(out) == repos + projects.map_values(
                |path: Seq<char>| label_of(host, path),
            )
            &&& forall|i: int|
                0 <= i < n ==> #[trigger] out[i] == TaskView::Github(repos[i]) && task_label(out[i])
                    == repos[i]
            &&& forall|i: int|
                n <= i < out.len() ==> (#[trigger] out[i]) == (TaskView::Gitlab {
                    path: projects[i - n],
                    label: label_of(host, projects[i - n]),
                }) && task_label(out[i]) == label_of(host, projects[i - n])
        }),
{
    assert(labels_of(tasks_for(repos, projects, host)) =~= repos + projects.map_values(
        |path: Seq<char>| label_of(host, path),
    ));
}

} // verus!
