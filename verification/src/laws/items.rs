//! Laws on the items that answers are made into.
use vstd::prelude::*;

use crate::github::{
    issue_items, issue_view, numbered_in, pull_items, pull_view, rest_listing, retained,
    upstream_listing, upstream_view, RestIssue, RestPull,
};
use crate::laws::order::{listings_stand_in_order, members_are_shared};
use crate::model::{
    item_order, item_order_is_strict_weak, listed, ItemKind, ItemView, Timestamp,
};
use crate::order::sorting_and_filtering_commute;

verus! {

/// Whether an item with this number is wanted: every one is where there is no set to go by.
pub open spec fn wanted(numbers: Option<Set<u64>>, number: u64) -> bool {
    numbers matches Some(set) ==> set.contains(number)
}

/// Whether an item stands in a listing, however it is ordered.
pub open spec fn stands_in(item: ItemView, items: Seq<ItemView>) -> bool {
    exists|k: int| 0 <= k < items.len() && #[trigger] items[k] == item
}

/// Whether items stand as a listing does: change requests in front of issues, and among each the
/// higher numbers first.
pub open spec fn well_listed(items: Seq<ItemView>) -> bool {
    forall|i: int, j: int|
        #![trigger items[i], items[j]]
        0 <= i < j < items.len() ==> {
            &&& items[j].kind == ItemKind::PullRequest ==> items[i].kind == ItemKind::PullRequest
            &&& items[i].kind == items[j].kind ==> items[i].number >= items[j].number
        }
}

/// A listing of what is wanted holds the wanted items, in order; it is the whole listing without
/// the rest.
pub proof fn listings_hold_what_is_wanted(items: Seq<ItemView>, numbers: Option<Set<u64>>)
    ensures
        well_listed(listed(retained(items, numbers))),
        forall|item: ItemView|
            #![trigger stands_in(item, listed(retained(items, numbers)))]
            stands_in(item, listed(retained(items, numbers))) == (stands_in(item, items) && wanted(
                numbers,
                item.number,
            )),
        numbers is None ==> listed(retained(items, numbers)).len() == items.len(),
        numbers matches Some(set) ==> listed(retained(items, numbers)) == listed(items).filter(
            |item: ItemView| set.contains(item.number),
        ),
{
    let kept = retained(items, numbers);
    let out = listed(kept);
    listings_stand_in_order(kept);
    members_are_shared(out, kept);
    assert forall|i: int, j: int|
        #![trigger out[i], out[j]]
        0 <= i < j < out.len() implies {
        &&& out[j].kind == ItemKind::PullRequest ==> out[i].kind == ItemKind::PullRequest
        &&& out[i].kind == out[j].kind ==> out[i].number >= out[j].number
    } by {}
    assert forall|item: ItemView|
        #![trigger stands_in(item, out)]
        stands_in(item, out) == (stands_in(item, items) && wanted(numbers, item.number)) by {
        assert(stands_in(item, out) == out.contains(item));
        assert(stands_in(item, items) == items.contains(item));
        assert(out.contains(item) == kept.contains(item));
        if let Some(set) = numbers {
            let p = numbered_in(set);
            if kept.contains(item) {
                items.lemma_filter_contains_rev(p, item);
                let k = choose|k: int| 0 <= k < kept.len() && kept[k] == item;
                items.lemma_filter_pred(p, k);
            }
            if items.contains(item) && set.contains(item.number) {
                let k = choose|k: int| 0 <= k < items.len() && items[k] == item;
                assert(p(items[k]));
                items.lemma_filter_contains(p, k);
            }
        }
    }
    if let Some(set) = numbers {
        item_order_is_strict_weak();
        sorting_and_filtering_commute(items, numbered_in(set), item_order());
        assert(numbered_in(set) =~= (|item: ItemView| set.contains(item.number)));
    }
}

/// Whether an item tells of a pull request of a repository's own list: what the entry tells is
/// told, and what it lacks is filled in.
pub open spec fn tells_of_pull(item: ItemView, pull: RestPull) -> bool {
    &&& item.kind == ItemKind::PullRequest
    &&& item.number == pull.number
    &&& match pull.title {
        Some(title) => item.title == title@,
        None => item.title.len() == 0,
    }
    &&& match pull.author {
        Some(login) => item.author == login@,
        None => item.author == "ghost"@,
    }
    &&& item.pr_draft == pull.draft
    &&& pull.created_at matches Some(at) ==> item.created_at == at
    &&& pull.updated_at matches Some(at) ==> item.updated_at == at
    &&& pull.created_at is None && pull.updated_at is Some ==> item.created_at == item.updated_at
    &&& pull.updated_at is None ==> item.updated_at == item.created_at
    &&& item.comments is None
    &&& item.review_decision is None
    &&& !item.mine
}

/// Whether an item tells of an issue of a repository's own list.
pub open spec fn tells_of_issue(item: ItemView, issue: RestIssue) -> bool {
    &&& item.kind == ItemKind::Issue
    &&& item.number == issue.number
    &&& item.title == issue.title@
    &&& item.author == issue.author@
    &&& item.created_at == issue.created_at
    &&& item.updated_at == issue.updated_at
    &&& item.pr_draft is None
    &&& item.comments is None
    &&& item.review_decision is None
    &&& !item.mine
}

/// Whether an item tells of an entry of an upstream's list.
pub open spec fn tells_of_entry(item: ItemView, entry: RestIssue) -> bool {
    &&& item.kind == ItemKind::PullRequest <==> entry.is_pull_request
    &&& item.number == entry.number
    &&& item.title == entry.title@
    &&& item.author == entry.author@
    &&& item.created_at == entry.created_at
    &&& item.updated_at == entry.updated_at
    &&& item.comments == Some(entry.comments as u64)
    &&& item.pr_draft is None
    &&& item.review_decision is None
    &&& !item.mine
}

proof fn issue_items_hold_the_issues(issues: Seq<RestIssue>)
    ensures
        forall|k: int|
            0 <= k < issue_items(issues).len() ==> exists|i: int|
                0 <= i < issues.len() && !(#[trigger] issues[i]).is_pull_request
                    && #[trigger] issue_items(issues)[k] == issue_view(issues[i]),
        forall|i: int|
            0 <= i < issues.len() && !(#[trigger] issues[i]).is_pull_request ==> stands_in(
                issue_view(issues[i]),
                issue_items(issues),
            ),
        issue_items(issues).len() == issues.filter(|e: RestIssue| !e.is_pull_request).len(),
    decreases issues.len(),
{
    reveal(Seq::filter);
    if issues.len() > 0 {
        let t = issues.drop_last();
        issue_items_hold_the_issues(t);
        let head = issue_items(t);
        let all = issue_items(issues);
        assert forall|k: int| 0 <= k < all.len() implies exists|i: int|
            0 <= i < issues.len() && !(#[trigger] issues[i]).is_pull_request
                && #[trigger] all[k] == issue_view(issues[i]) by {
            if k < head.len() {
                assert(all[k] == head[k]);
                let i = choose|i: int|
                    0 <= i < t.len() && !(#[trigger] t[i]).is_pull_request && head[k]
                        == issue_view(t[i]);
                assert(issues[i] == t[i]);
            } else {
                assert(all[k] == issue_view(issues[issues.len() - 1]));
            }
        }
        assert forall|i: int|
            0 <= i < issues.len() && !(#[trigger] issues[i]).is_pull_request implies stands_in(
            issue_view(issues[i]),
            all,
        ) by {
            if i < t.len() {
                assert(issues[i] == t[i]);
                let k = choose|k: int|
                    0 <= k < head.len() && #[trigger] head[k] == issue_view(t[i]);
                assert(all[k] == head[k]);
            } else {
                assert(all[all.len() - 1] == issue_view(issues[i]));
            }
        }
    }
}

/// Whether items tell of a repository's own lists: every item of a wanted entry of the list of its
/// kind, and every wanted entry has its item. The list of issues gives no pull requests. Where all
/// is wanted, there are as many items as entries.
pub open spec fn tell_of_lists(
    out: Seq<ItemView>,
    issues: Seq<RestIssue>,
    pulls: Seq<RestPull>,
    numbers: Option<Set<u64>>,
) -> bool {
    &&& well_listed(out)
    &&& forall|k: int|
        0 <= k < out.len() ==> wanted(numbers, (#[trigger] out[k]).number) && match out[k].kind {
            ItemKind::PullRequest => exists|i: int|
                0 <= i < pulls.len() && tells_of_pull(out[k], #[trigger] pulls[i]),
            ItemKind::Issue => exists|i: int|
                0 <= i < issues.len() && !(#[trigger] issues[i]).is_pull_request && tells_of_issue(
                    out[k],
                    issues[i],
                ),
        }
    &&& forall|i: int|
        0 <= i < pulls.len() && wanted(numbers, (#[trigger] pulls[i]).number) ==> exists|k: int|
            0 <= k < out.len() && tells_of_pull(#[trigger] out[k], pulls[i])
    &&& forall|i: int|
        0 <= i < issues.len() && !(#[trigger] issues[i]).is_pull_request && wanted(
            numbers,
            issues[i].number,
        ) ==> exists|k: int| 0 <= k < out.len() && tells_of_issue(#[trigger] out[k], issues[i])
    &&& numbers is None ==> out.len() == pulls.len() + issues.filter(
        |e: RestIssue| !e.is_pull_request,
    ).len()
}

/// What is fetched of a repository one by one tells of its lists.
pub proof fn own_items_tell_of_their_entries(
    issues: Seq<RestIssue>,
    pulls: Seq<RestPull>,
    clock: Seq<Timestamp>,
    numbers: Option<Set<u64>>,
)
    ensures
        tell_of_lists(rest_listing(issues, pulls, clock, numbers), issues, pulls, numbers),
{
    let of_issues = issue_items(issues);
    let of_pulls = pull_items(pulls, clock);
    let all = of_issues + of_pulls;
    let out = rest_listing(issues, pulls, clock, numbers);
    issue_items_hold_the_issues(issues);
    listings_hold_what_is_wanted(all, numbers);
    assert forall|k: int| 0 <= k < out.len() implies wanted(numbers, (#[trigger] out[k]).number)
        && match out[k].kind {
        ItemKind::PullRequest => exists|i: int|
            0 <= i < pulls.len() && tells_of_pull(out[k], #[trigger] pulls[i]),
        ItemKind::Issue => exists|i: int|
            0 <= i < issues.len() && !(#[trigger] issues[i]).is_pull_request && tells_of_issue(
                out[k],
                issues[i],
            ),
    } by {
        assert(stands_in(out[k], out));
        let m = choose|m: int| 0 <= m < all.len() && #[trigger] all[m] == out[k];
        if m < of_issues.len() {
            assert(all[m] == of_issues[m]);
            let i = choose|i: int|
                0 <= i < issues.len() && !(#[trigger] issues[i]).is_pull_request && of_issues[m]
                    == issue_view(issues[i]);
            assert(tells_of_issue(out[k], issues[i]));
        } else {
            let i = m - of_issues.len();
            assert(all[m] == of_pulls[i]);
            assert(tells_of_pull(out[k], pulls[i]));
        }
    }
    assert forall|i: int|
        0 <= i < pulls.len() && wanted(numbers, (#[trigger] pulls[i]).number) implies exists|k: int|
        0 <= k < out.len() && tells_of_pull(#[trigger] out[k], pulls[i]) by {
        let item = pull_view(pulls[i], clock[i]);
        assert(all[of_issues.len() + i] == item);
        assert(stands_in(item, all));
        assert(stands_in(item, out));
        let k = choose|k: int| 0 <= k < out.len() && #[trigger] out[k] == item;
        assert(tells_of_pull(out[k], pulls[i]));
    }
    assert forall|i: int|
        0 <= i < issues.len() && !(#[trigger] issues[i]).is_pull_request && wanted(
            numbers,
            issues[i].number,
        ) implies exists|k: int|
        0 <= k < out.len() && tells_of_issue(#[trigger] out[k], issues[i]) by {
        let item = issue_view(issues[i]);
        let m = choose|m: int| 0 <= m < of_issues.len() && #[trigger] of_issues[m] == item;
        assert(all[m] == item);
        assert(stands_in(item, all));
        assert(stands_in(item, out));
        let k = choose|k: int| 0 <= k < out.len() && #[trigger] out[k] == item;
        assert(tells_of_issue(out[k], issues[i]));
    }
}

/// Each item tells of its entry, whatever the present moment; that stands in just where an entry
/// tells no time at all.
pub proof fn the_present_stands_in_for_missing_times(
    pull: RestPull,
    issue: RestIssue,
    now: Timestamp,
)
    ensures
        tells_of_pull(pull_view(pull, now), pull),
        pull.created_at is None && pull.updated_at is None ==> pull_view(pull, now).created_at
            == now,
        pull.created_at is None ==> (pull.updated_at matches Some(at) ==> pull_view(
            pull,
            now,
        ).created_at == at),
        tells_of_issue(issue_view(issue), issue),
        tells_of_entry(upstream_view(issue), issue),
{
}

/// What the subscriptions leave of a repository is its whole listing without the other numbers.
pub proof fn subscriptions_only_leave_out(
    issues: Seq<RestIssue>,
    pulls: Seq<RestPull>,
    clock: Seq<Timestamp>,
    set: Set<u64>,
)
    ensures
        rest_listing(issues, pulls, clock, Some(set)) == rest_listing(
            issues,
            pulls,
            clock,
            None,
        ).filter(|item: ItemView| set.contains(item.number)),
{
    listings_hold_what_is_wanted(issue_items(issues) + pull_items(pulls, clock), Some(set));
}

/// Whether an item tells of one of these entries of an upstream's list.
pub open spec fn stems_from_entry(item: ItemView, entries: Seq<RestIssue>) -> bool {
    exists|i: int| 0 <= i < entries.len() && tells_of_entry(item, #[trigger] entries[i])
}

/// Whether one of `items` tells of an entry of an upstream's list.
pub open spec fn entry_told_by(entry: RestIssue, items: Seq<ItemView>) -> bool {
    exists|k: int| 0 <= k < items.len() && tells_of_entry(#[trigger] items[k], entry)
}

/// Whether items tell of an upstream's list: each entry has its item, each item its entry, and
/// there are as many.
pub open spec fn tell_of_upstream(out: Seq<ItemView>, entries: Seq<RestIssue>) -> bool {
    &&& out.len() == entries.len()
    &&& well_listed(out)
    &&& forall|k: int| 0 <= k < out.len() ==> #[trigger] stems_from_entry(out[k], entries)
    &&& forall|i: int| 0 <= i < entries.len() ==> #[trigger] entry_told_by(entries[i], out)
}

/// What is fetched of a fork at its upstream tells of the upstream's list.
pub proof fn upstream_items_tell_of_their_entries(issues: Seq<RestIssue>)
    ensures
        tell_of_upstream(upstream_listing(issues), issues),
{
    let all = issues.map_values(|issue: RestIssue| upstream_view(issue));
    let out = upstream_listing(issues);
    listings_hold_what_is_wanted(all, None);
    assert forall|k: int| 0 <= k < out.len() implies #[trigger] stems_from_entry(
        out[k],
        issues,
    ) by {
        assert(stands_in(out[k], out));
        let i = choose|i: int| 0 <= i < all.len() && #[trigger] all[i] == out[k];
        assert(tells_of_entry(out[k], issues[i]));
    }
    assert forall|i: int| 0 <= i < issues.len() implies #[trigger] entry_told_by(
        issues[i],
        out,
    ) by {
        assert(all[i] == upstream_view(issues[i]));
        assert(stands_in(all[i], all));
        assert(stands_in(all[i], out));
        let k = choose|k: int| 0 <= k < out.len() && #[trigger] out[k] == all[i];
        assert(tells_of_entry(out[k], issues[i]));
    }
}

} // verus!
