//! Laws on the order of items and of repositories.
use vstd::prelude::*;

use crate::model::{
    earlier, item_before, item_order, item_order_is_strict_weak, listed, ItemKind, ItemView,
    ResultView, StatusView, Timestamp,
};
use crate::order::{
    in_text_order, stable_sort_keeps_ties, stable_sort_permutes, stable_sort_sorts, text_order,
    text_order_is_strict_weak, ties, unique_names_ascend, without_repeats,
};
use crate::sort::{
    failed, failed_repos_go_last, items_stand_in_order, latest, mode_name, mode_named,
    oldest, ordered, result_before, result_order, result_order_is_strict_weak,
    sorting_keeps_every_repo, times_bound_items, unknown_mode, SortMode,
};
use crate::text::{lower, text_before, text_before_irreflexive, text_before_total};

verus! {

/// Whether two lists hold the same elements, each as often in the one as in the other.
pub open spec fn same_members<T>(a: Seq<T>, b: Seq<T>) -> bool {
    a.to_multiset() == b.to_multiset()
}

/// What is in one of two lists with the same elements is in the other.
pub proof fn members_are_shared<T>(a: Seq<T>, b: Seq<T>)
    requires
        same_members(a, b),
    ensures
        a.len() == b.len(),
        forall|x: T| a.contains(x) == b.contains(x),
{
    broadcast use vstd::seq_lib::group_to_multiset_ensures;

    assert(a.len() == a.to_multiset().len());
    assert(b.len() == b.to_multiset().len());
    assert forall|x: T| a.contains(x) == b.contains(x) by {
        assert(a.contains(x) == (a.to_multiset().count(x) > 0));
        assert(b.contains(x) == (b.to_multiset().count(x) > 0));
    }
}

/// Whether an instant is not after another.
pub open spec fn not_after(a: Timestamp, b: Timestamp) -> bool {
    a.secs < b.secs || (a.secs == b.secs && a.nanos <= b.nanos)
}

/// Earlier is what has fewer seconds, or as many and fewer nanoseconds.
pub proof fn earlier_is_not_at_or_after(a: Timestamp, b: Timestamp)
    ensures
        earlier(a, b) <==> !not_after(b, a),
{
}

/// "Is of this kind and has this number" as a predicate value.
pub open spec fn of_kind_and_number(kind: ItemKind, number: u64) -> spec_fn(ItemView) -> bool {
    |item: ItemView| item.kind == kind && item.number == number
}

/// A listing holds the items that it is made of, change requests in front of issues, and among
/// each the higher numbers first; items of one kind and number keep the order that they had.
pub proof fn listings_stand_in_order(items: Seq<ItemView>)
    ensures
        same_members(listed(items), items),
        listed(items).len() == items.len(),
        forall|i: int, j: int|
            #![trigger listed(items)[i], listed(items)[j]]
            0 <= i < j < items.len() ==> {
                let a = listed(items)[i];
                let b = listed(items)[j];
                &&& b.kind == ItemKind::PullRequest ==> a.kind == ItemKind::PullRequest
                &&& a.kind == b.kind ==> a.number >= b.number
            },
        forall|kind: ItemKind, number: u64|
            listed(items).filter(of_kind_and_number(kind, number)) == #[trigger] items.filter(
                of_kind_and_number(kind, number),
            ),
{
    let before = item_order();
    let out = listed(items);
    item_order_is_strict_weak();
    stable_sort_sorts(items, before);
    stable_sort_permutes(items, before);
    assert forall|i: int, j: int|
        #![trigger out[i], out[j]]
        0 <= i < j < items.len() implies {
        let a = out[i];
        let b = out[j];
        &&& b.kind == ItemKind::PullRequest ==> a.kind == ItemKind::PullRequest
        &&& a.kind == b.kind ==> a.number >= b.number
    } by {
        assert(!before(out[j], out[i]));
        assert(!item_before(out[j], out[i]));
    }
    assert forall|kind: ItemKind, number: u64|
        out.filter(of_kind_and_number(kind, number)) == #[trigger] items.filter(
            of_kind_and_number(kind, number),
        ) by {
        let some = ItemView {
            kind,
            number,
            title: Seq::empty(),
            created_at: Timestamp { secs: 0, nanos: 0 },
            updated_at: Timestamp { secs: 0, nanos: 0 },
            author: Seq::empty(),
            pr_draft: None,
            comments: None,
            review_decision: None,
            mine: false,
        };
        stable_sort_keeps_ties(items, before, some);
        assert(ties(before, some) =~= of_kind_and_number(kind, number));
    }
}

/// Names in the order of texts are the names that there were, none behind one that it stands
/// before.
pub proof fn names_stand_in_order(names: Seq<Seq<char>>)
    ensures
        same_members(in_text_order(names), names),
        in_text_order(names).len() == names.len(),
        forall|i: int, j: int|
            #![trigger in_text_order(names)[i], in_text_order(names)[j]]
            0 <= i < j < names.len() ==> !text_before(
                in_text_order(names)[j],
                in_text_order(names)[i],
            ),
{
    text_order_is_strict_weak();
    stable_sort_sorts(names, text_order());
    stable_sort_permutes(names, text_order());
    let out = in_text_order(names);
    assert forall|i: int, j: int|
        #![trigger out[i], out[j]]
        0 <= i < j < names.len() implies !text_before(out[j], out[i]) by {
        assert(!(text_order())(out[j], out[i]));
    }
}

/// Names in the order of texts, each once: a name is there just where it was, and each stands
/// before those behind it.
pub proof fn each_name_stands_once(names: Seq<Seq<char>>)
    ensures
        forall|name: Seq<char>| #[trigger]
            without_repeats(in_text_order(names)).contains(name) == names.contains(name),
        forall|i: int, j: int|
            #![trigger without_repeats(in_text_order(names))[i], without_repeats(
                in_text_order(names),
            )[j]]
            0 <= i < j < without_repeats(in_text_order(names)).len() ==> text_before(
                without_repeats(in_text_order(names))[i],
                without_repeats(in_text_order(names))[j],
            ),
{
    unique_names_ascend(names);
}

/// Whether texts stand in order, each once.
pub open spec fn ascending(names: Seq<Seq<char>>) -> bool {
    forall|i: int, j: int|
        #![trigger names[i], names[j]]
        0 <= i < j < names.len() ==> text_before(names[i], names[j])
}

/// The digest holds every repository as it was, those with items in front; what failed stands in
/// the order that it had.
pub proof fn digest_order_keeps_every_repo(results: Seq<ResultView>, mode: SortMode)
    ensures
        same_members(ordered(results, mode), results),
        ordered(results, mode).len() == results.len(),
        forall|i: int, j: int|
            #![trigger ordered(results, mode)[i], ordered(results, mode)[j]]
            0 <= i < j < results.len() && ordered(results, mode)[j].status is Items ==> ordered(
                results,
                mode,
            )[i].status is Items,
        ordered(results, mode).filter(|r: ResultView| !(r.status is Items)) == results.filter(
            |r: ResultView| !(r.status is Items),
        ),
{
    sorting_keeps_every_repo(results, mode);
    failed_repos_go_last(results, mode);
    assert(failed() =~= (|r: ResultView| !(r.status is Items)));
}

/// Whether for every item of `a` there is one of `b` that was touched no earlier.
#[verifier::opaque]
pub open spec fn reached_by(a: Seq<ItemView>, b: Seq<ItemView>) -> bool {
    forall|n: int|
        0 <= n < a.len() ==> exists|m: int|
            0 <= m < b.len() && not_after(
                (#[trigger] a[n]).updated_at,
                (#[trigger] b[m]).updated_at,
            )
}

/// Whether for every item of `a` there is one of `b` that was touched no later.
#[verifier::opaque]
pub open spec fn preceded_by(a: Seq<ItemView>, b: Seq<ItemView>) -> bool {
    forall|n: int|
        0 <= n < a.len() ==> exists|m: int|
            0 <= m < b.len() && not_after(
                (#[trigger] b[m]).updated_at,
                (#[trigger] a[n]).updated_at,
            )
}

proof fn reaching_compares_the_latest(x: Seq<ItemView>, y: Seq<ItemView>)
    ensures
        reached_by(x, y) <==> x.len() == 0 || (y.len() > 0 && !earlier(latest(y)->0, latest(x)->0)),
{
    reveal(reached_by);
    times_bound_items(x);
    times_bound_items(y);
    if x.len() > 0 {
        let p = choose|p: int|
            0 <= p < x.len() && latest(x)->0 == (#[trigger] x[p]).updated_at;
        if reached_by(x, y) {
            let m = choose|m: int|
                0 <= m < y.len() && not_after(x[p].updated_at, (#[trigger] y[m]).updated_at);
            assert(!earlier(latest(y)->0, y[m].updated_at));
        }
        if y.len() > 0 && !earlier(latest(y)->0, latest(x)->0) {
            let r = choose|r: int|
                0 <= r < y.len() && latest(y)->0 == (#[trigger] y[r]).updated_at;
            assert forall|n: int| 0 <= n < x.len() implies exists|m: int|
                0 <= m < y.len() && not_after(
                    (#[trigger] x[n]).updated_at,
                    (#[trigger] y[m]).updated_at,
                ) by {
                assert(not_after(x[n].updated_at, y[r].updated_at));
            }
        }
    }
}

proof fn preceding_compares_the_oldest(x: Seq<ItemView>, y: Seq<ItemView>)
    ensures
        preceded_by(x, y) <==> x.len() == 0 || (y.len() > 0 && !earlier(
            oldest(x)->0,
            oldest(y)->0,
        )),
{
    reveal(preceded_by);
    times_bound_items(x);
    times_bound_items(y);
    if x.len() > 0 {
        let q = choose|q: int|
            0 <= q < x.len() && oldest(x)->0 == (#[trigger] x[q]).updated_at;
        if preceded_by(x, y) {
            let m = choose|m: int|
                0 <= m < y.len() && not_after((#[trigger] y[m]).updated_at, x[q].updated_at);
            assert(!earlier(y[m].updated_at, oldest(y)->0));
        }
        if y.len() > 0 && !earlier(oldest(x)->0, oldest(y)->0) {
            let r = choose|r: int|
                0 <= r < y.len() && oldest(y)->0 == (#[trigger] y[r]).updated_at;
            assert forall|n: int| 0 <= n < x.len() implies exists|m: int|
                0 <= m < y.len() && not_after(
                    (#[trigger] y[m]).updated_at,
                    (#[trigger] x[n]).updated_at,
                ) by {
                assert(not_after(y[r].updated_at, x[n].updated_at));
            }
        }
    }
}

/// By activity: for every item of a repository that stands later there is an item of each
/// repository that stands earlier that was touched no earlier.
pub proof fn activity_puts_the_latest_first(results: Seq<ResultView>, i: int, j: int)
    requires
        0 <= i < j < results.len(),
    ensures
        ({
            let out = ordered(results, SortMode::Activity);
            match (out[i].status, out[j].status) {
                (StatusView::Items(ahead), StatusView::Items(behind)) => reached_by(behind, ahead),
                _ => true,
            }
        }),
{
    let out = ordered(results, SortMode::Activity);
    if let (StatusView::Items(ahead), StatusView::Items(behind)) = (out[i].status, out[j].status) {
        items_stand_in_order(results, SortMode::Activity, i, j);
        times_bound_items(ahead);
        times_bound_items(behind);
        reaching_compares_the_latest(behind, ahead);
    }
}

/// By staleness: for every item of a repository that stands later there is an item of each
/// repository that stands earlier that was touched no later.
pub proof fn staleness_puts_the_oldest_first(results: Seq<ResultView>, i: int, j: int)
    requires
        0 <= i < j < results.len(),
    ensures
        ({
            let out = ordered(results, SortMode::Stale);
            match (out[i].status, out[j].status) {
                (StatusView::Items(ahead), StatusView::Items(behind)) => preceded_by(behind, ahead),
                _ => true,
            }
        }),
{
    let out = ordered(results, SortMode::Stale);
    if let (StatusView::Items(ahead), StatusView::Items(behind)) = (out[i].status, out[j].status) {
        items_stand_in_order(results, SortMode::Stale, i, j);
        times_bound_items(ahead);
        times_bound_items(behind);
        preceding_compares_the_oldest(behind, ahead);
    }
}

/// By count: no repository stands in front of one with more items. By name: none stands in front
/// of one whose name, whatever the case of its letters, comes before its own.
pub proof fn count_and_name_decide(results: Seq<ResultView>, i: int, j: int)
    requires
        0 <= i < j < results.len(),
    ensures
        ({
            let out = ordered(results, SortMode::Count);
            match (out[i].status, out[j].status) {
                (StatusView::Items(ahead), StatusView::Items(behind)) => ahead.len()
                    >= behind.len(),
                _ => true,
            }
        }),
        ({
            let out = ordered(results, SortMode::Name);
            out[i].status is Items && out[j].status is Items ==> !text_before(
                lower(out[j].repo),
                lower(out[i].repo),
            )
        }),
{
    let out = ordered(results, SortMode::Count);
    if out[i].status is Items && out[j].status is Items {
        items_stand_in_order(results, SortMode::Count, i, j);
    }
    let named = ordered(results, SortMode::Name);
    if named[i].status is Items && named[j].status is Items {
        items_stand_in_order(results, SortMode::Name, i, j);
    }
}

/// Repositories with items that the mode does not tell apart stand in the order of their names,
/// whatever the case of the letters.
pub proof fn names_break_ties(results: Seq<ResultView>, mode: SortMode, i: int, j: int)
    requires
        0 <= i < j < results.len(),
    ensures
        ({
            let out = ordered(results, mode);
            match (out[i].status, out[j].status) {
                (StatusView::Items(ahead), StatusView::Items(behind)) => {
                    let tied = match mode {
                        SortMode::Name => true,
                        SortMode::Count => ahead.len() == behind.len(),
                        SortMode::Activity => reached_by(ahead, behind),
                        SortMode::Stale => preceded_by(ahead, behind),
                    };
                    tied ==> !text_before(lower(out[j].repo), lower(out[i].repo))
                },
                _ => true,
            }
        }),
{
    let out = ordered(results, mode);
    if let (StatusView::Items(ahead), StatusView::Items(behind)) = (out[i].status, out[j].status) {
        items_stand_in_order(results, mode, i, j);
        times_bound_items(ahead);
        times_bound_items(behind);
        reaching_compares_the_latest(ahead, behind);
        preceding_compares_the_oldest(ahead, behind);
    }
}

/// Whether, of two repositories with items, `a` may stand in front of `b` where the order is by
/// `mode`; what the mode does not tell apart goes by name, whatever the case of the letters.
pub open spec fn may_lead(a: ResultView, b: ResultView, mode: SortMode) -> bool {
    match (a.status, b.status) {
        (StatusView::Items(ahead), StatusView::Items(behind)) => {
            let named = !text_before(lower(b.repo), lower(a.repo));
            match mode {
                SortMode::Name => named,
                SortMode::Count => ahead.len() > behind.len() || (ahead.len() == behind.len()
                    && named),
                SortMode::Activity => reached_by(behind, ahead) && (reached_by(ahead, behind)
                    ==> named),
                SortMode::Stale => preceded_by(behind, ahead) && (preceded_by(ahead, behind)
                    ==> named),
            }
        },
        (_, StatusView::Items(_)) => false,
        _ => true,
    }
}

/// Whether two repositories with items are not told apart: neither by the mode nor by their names,
/// whatever the case of the letters.
pub open spec fn alike(a: ResultView, b: ResultView, mode: SortMode) -> bool {
    match (a.status, b.status) {
        (StatusView::Items(x), StatusView::Items(y)) => lower(a.repo) == lower(b.repo) && match mode {
            SortMode::Name => true,
            SortMode::Count => x.len() == y.len(),
            SortMode::Activity => reached_by(x, y) && reached_by(y, x),
            SortMode::Stale => preceded_by(x, y) && preceded_by(y, x),
        },
        _ => false,
    }
}

/// "Is not told apart from `a`" as a predicate value.
pub open spec fn like(a: ResultView, mode: SortMode) -> spec_fn(ResultView) -> bool {
    |b: ResultView| alike(a, b, mode)
}

proof fn ties_are_alike(a: ResultView, b: ResultView, mode: SortMode)
    requires
        a.status is Items,
    ensures
        (!result_before(a, b, mode) && !result_before(b, a, mode)) == alike(a, b, mode),
{
    if let (StatusView::Items(x), StatusView::Items(y)) = (a.status, b.status) {
        text_before_total(lower(a.repo), lower(b.repo));
        text_before_irreflexive(lower(a.repo));
        reaching_compares_the_latest(x, y);
        reaching_compares_the_latest(y, x);
        preceding_compares_the_oldest(x, y);
        preceding_compares_the_oldest(y, x);
        times_bound_items(x);
        times_bound_items(y);
    }
}

/// Repositories that are not told apart keep the order that they had.
pub proof fn what_is_alike_keeps_its_order(
    results: Seq<ResultView>,
    mode: SortMode,
    one: ResultView,
)
    requires
        one.status is Items,
    ensures
        ordered(results, mode).filter(like(one, mode)) == results.filter(like(one, mode)),
{
    let before = result_order(mode);
    result_order_is_strict_weak(mode);
    stable_sort_keeps_ties(results, before, one);
    assert forall|b: ResultView| #[trigger] ties(before, one)(b) == like(one, mode)(b) by {
        ties_are_alike(one, b, mode);
    }
    assert(ties(before, one) =~= like(one, mode));
}

/// Whether `out` is `results` in the order of the digest: the same repositories, each in front of
/// another only where it may be, and what is not told apart, or failed, in the order that it had.
pub open spec fn in_digest_order(
    out: Seq<ResultView>,
    results: Seq<ResultView>,
    mode: SortMode,
) -> bool {
    &&& same_members(out, results)
    &&& out.len() == results.len()
    &&& forall|i: int, j: int|
        #![trigger out[i], out[j]]
        0 <= i < j < out.len() ==> may_lead(out[i], out[j], mode)
    &&& out.filter(|r: ResultView| !(r.status is Items)) == results.filter(
        |r: ResultView| !(r.status is Items),
    )
    &&& forall|one: ResultView|
        one.status is Items ==> out.filter(like(one, mode)) == #[trigger] results.filter(
            like(one, mode),
        )
}

/// The repositories of a digest stand in the order that was asked for.
pub proof fn the_digest_is_in_order(results: Seq<ResultView>, mode: SortMode)
    ensures
        in_digest_order(ordered(results, mode), results, mode),
{
    let out = ordered(results, mode);
    digest_order_keeps_every_repo(results, mode);
    assert forall|one: ResultView| one.status is Items implies out.filter(like(one, mode))
        == #[trigger] results.filter(like(one, mode)) by {
        what_is_alike_keeps_its_order(results, mode, one);
    }
    assert forall|i: int, j: int|
        #![trigger out[i], out[j]]
        0 <= i < j < out.len() implies may_lead(out[i], out[j], mode) by {
        names_break_ties(results, mode, i, j);
        activity_puts_the_latest_first(results, i, j);
        staleness_puts_the_oldest_first(results, i, j);
        count_and_name_decide(results, i, j);
    }
}

/// Each mode goes by one name, and what is no such name names no mode.
pub proof fn modes_go_by_their_names(name: Seq<char>)
    ensures
        mode_named(name) == Some(SortMode::Activity) <==> name == "activity"@,
        mode_named(name) == Some(SortMode::Name) <==> name == "name"@,
        mode_named(name) == Some(SortMode::Count) <==> name == "count"@,
        mode_named(name) == Some(SortMode::Stale) <==> name == "stale"@,
{
    reveal_strlit("activity");
    reveal_strlit("name");
    reveal_strlit("count");
    reveal_strlit("stale");
    assert("activity"@.len() == 8 && "name"@.len() == 4 && "count"@.len() == 5 && "stale"@.len()
        == 5);
    assert("count"@[0] == 'c' && "stale"@[0] == 's');
}

/// The flag settles the mode whatever is configured; without it the configuration does. What names
/// no mode is told, with the names of the modes that there are.
pub proof fn flag_settles_the_mode(flag: Seq<char>, configured: Option<Seq<char>>)
    ensures
        mode_name(Some(flag), configured) == flag,
        configured matches Some(name) ==> mode_name(None, configured) == name,
        configured is None ==> mode_name(None, configured) == "activity"@,
        unknown_mode(flag) == "unknown sort mode: "@ + flag
            + " (available: activity, name, count, stale)"@,
{
}

} // verus!
