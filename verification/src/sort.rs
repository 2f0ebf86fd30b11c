//! The order of the repositories in the digest.
use std::cmp::Ordering;

use vstd::prelude::*;
use vstd::string::*;

use crate::laws::order::{in_digest_order, the_digest_is_in_order};
use crate::model::{
    earlier, ItemView, RepoItem, RepoResult, RepoStatus, ResultView, StatusView, Timestamp,
};
use crate::order::{
    filter_none, filter_one, lone_elements_are_filtered_alike, same_groups_sort_alike, sort_by,
    stable_sort, stable_sort_keeps_ties, stable_sort_permutes, stable_sort_sorts,
    strict_weak_order, ties,
};
use crate::text::{
    less, lower, opt_str, same, text_before, text_before_irreflexive, text_before_total,
    text_before_transitive, to_lower, views,
};

verus! {

broadcast use {vstd::string::group_string_axioms, vstd::std_specs::hash::group_hash_axioms};

/// By what the repositories are ordered.
#[derive(Debug, Clone, Copy, PartialEq, Eq, Structural)]
pub enum SortMode {
    /// By the item touched last, the latest first.
    Activity,
    /// By name.
    Name,
    /// By the number of items, the most first.
    Count,
    /// By the item that was left alone longest, the oldest first.
    Stale,
}

/// The names of the modes.
pub const SORT_NAMES: [&'static str; 4] = ["activity", "name", "count", "stale"];

/// The mode that `name` names.
pub open spec fn mode_named(name: Seq<char>) -> Option<SortMode> {
    if name == "activity"@ {
        Some(SortMode::Activity)
    } else if name == "name"@ {
        Some(SortMode::Name)
    } else if name == "count"@ {
        Some(SortMode::Count)
    } else if name == "stale"@ {
        Some(SortMode::Stale)
    } else {
        None
    }
}

impl SortMode {
    /// The mode that `name` names.
    pub fn by_name(name: &str) -> (res: Option<SortMode>)
        ensures
            res == mode_named(name@),
    {
        if same(name, "activity") {
            Some(SortMode::Activity)
        } else if same(name, "name") {
            Some(SortMode::Name)
        } else if same(name, "count") {
            Some(SortMode::Count)
        } else if same(name, "stale") {
            Some(SortMode::Stale)
        } else {
            None
        }
    }
}

/// Whether the fetch of a repository brought its items.
pub open spec fn has_items(result: ResultView) -> bool {
    result.status is Items
}

/// The items of a repository; none where the fetch failed.
pub open spec fn items_in(result: ResultView) -> Seq<ItemView> {
    match result.status {
        StatusView::Items(items) => items,
        _ => Seq::empty(),
    }
}

/// When the item touched last was touched.
pub open spec fn latest(items: Seq<ItemView>) -> Option<Timestamp>
    decreases items.len(),
{
    if items.len() == 0 {
        None
    } else {
        let at = items.last().updated_at;
        match latest(items.drop_last()) {
            Some(other) => if earlier(at, other) {
                Some(other)
            } else {
                Some(at)
            },
            None => Some(at),
        }
    }
}

/// When the item left alone longest was touched.
pub open spec fn oldest(items: Seq<ItemView>) -> Option<Timestamp>
    decreases items.len(),
{
    if items.len() == 0 {
        None
    } else {
        let at = items.last().updated_at;
        match oldest(items.drop_last()) {
            Some(other) => if earlier(at, other) {
                Some(at)
            } else {
                Some(other)
            },
            None => Some(at),
        }
    }
}

/// The latest and the oldest time are times of items, and every item lies between them.
pub proof fn times_bound_items(items: Seq<ItemView>)
    ensures
        latest(items) is None <==> items.len() == 0,
        oldest(items) is None <==> items.len() == 0,
        forall|i: int|
            0 <= i < items.len() ==> !earlier(latest(items)->0, (#[trigger] items[i]).updated_at)
                && !earlier(items[i].updated_at, oldest(items)->0),
        items.len() > 0 ==> exists|i: int|
            0 <= i < items.len() && latest(items)->0 == (#[trigger] items[i]).updated_at,
        items.len() > 0 ==> exists|i: int|
            0 <= i < items.len() && oldest(items)->0 == (#[trigger] items[i]).updated_at,
    decreases items.len(),
{
    if items.len() > 0 {
        let t = items.drop_last();
        times_bound_items(t);
        assert forall|i: int| 0 <= i < items.len() implies !earlier(
            latest(items)->0,
            (#[trigger] items[i]).updated_at,
        ) && !earlier(items[i].updated_at, oldest(items)->0) by {
            if i < t.len() {
                assert(t[i] == items[i]);
            }
        }
        assert(items[items.len() - 1].updated_at == items.last().updated_at);
        if t.len() > 0 {
            let i = choose|i: int|
                0 <= i < t.len() && latest(t)->0 == (#[trigger] t[i]).updated_at;
            let j = choose|j: int|
                0 <= j < t.len() && oldest(t)->0 == (#[trigger] t[j]).updated_at;
            assert(items[i].updated_at == t[i].updated_at);
            assert(items[j].updated_at == t[j].updated_at);
        }
    }
}

/// Whether one time goes before the other: the earlier one, or the later; no time goes last.
pub open spec fn time_before(a: Option<Timestamp>, b: Option<Timestamp>, ascending: bool) -> bool {
    match (a, b) {
        (Some(x), Some(y)) => if ascending {
            earlier(x, y)
        } else {
            earlier(y, x)
        },
        (Some(_), None) => true,
        _ => false,
    }
}

/// Whether one name goes before the other, whatever the case of their letters.
pub open spec fn name_before(a: ResultView, b: ResultView) -> bool {
    text_before(lower(a.repo), lower(b.repo))
}

/// Whether, of two repositories with items, `a` goes before `b` by what `mode` looks at.
pub open spec fn key_before(a: ResultView, b: ResultView, mode: SortMode) -> bool {
    match mode {
        SortMode::Name => name_before(a, b),
        SortMode::Count => items_in(a).len() > items_in(b).len(),
        SortMode::Activity => time_before(latest(items_in(a)), latest(items_in(b)), false),
        SortMode::Stale => time_before(oldest(items_in(a)), oldest(items_in(b)), true),
    }
}

/// Whether `a` goes before `b`: what has items before what failed, then by what `mode` looks at,
/// then by name. What failed is not told apart.
pub open spec fn result_before(a: ResultView, b: ResultView, mode: SortMode) -> bool {
    if has_items(a) && has_items(b) {
        key_before(a, b, mode) || (!key_before(b, a, mode) && name_before(a, b))
    } else {
        has_items(a) && !has_items(b)
    }
}

/// The order of repositories as a predicate value.
pub open spec fn result_order(mode: SortMode) -> spec_fn(ResultView, ResultView) -> bool {
    |a: ResultView, b: ResultView| result_before(a, b, mode)
}

/// The repositories in the order of the digest.
pub open spec fn ordered(results: Seq<ResultView>, mode: SortMode) -> Seq<ResultView> {
    stable_sort(results, result_order(mode))
}

proof fn names_form_groups(a: ResultView, b: ResultView, c: ResultView)
    ensures
        !name_before(a, a),
        name_before(a, b) && name_before(b, c) ==> name_before(a, c),
        name_before(a, c) ==> name_before(a, b) || name_before(b, c),
{
    let x = lower(a.repo);
    let y = lower(b.repo);
    let z = lower(c.repo);
    text_before_irreflexive(x);
    if text_before(x, y) && text_before(y, z) {
        text_before_transitive(x, y, z);
    }
    if text_before(x, z) {
        text_before_total(x, y);
        if text_before(y, x) {
            text_before_transitive(y, x, z);
        }
    }
}

proof fn keys_form_groups(a: ResultView, b: ResultView, c: ResultView, mode: SortMode)
    ensures
        !key_before(a, a, mode),
        key_before(a, b, mode) && key_before(b, c, mode) ==> key_before(a, c, mode),
        key_before(a, c, mode) ==> key_before(a, b, mode) || key_before(b, c, mode),
{
    names_form_groups(a, b, c);
}

/// The order of repositories is a strict order whose ties form groups.
pub proof fn result_order_is_strict_weak(mode: SortMode)
    ensures
        strict_weak_order(result_order(mode)),
{
    let before = result_order(mode);
    assert forall|a: ResultView| !#[trigger] before(a, a) by {
        names_form_groups(a, a, a);
        keys_form_groups(a, a, a, mode);
    }
    assert forall|a: ResultView, b: ResultView, c: ResultView|
        #![trigger before(a, b), before(b, c)]
        before(a, b) && before(b, c) implies before(a, c) by {
        names_form_groups(a, b, c);
        keys_form_groups(a, b, c, mode);
        keys_form_groups(c, a, b, mode);
        keys_form_groups(b, c, a, mode);
        keys_form_groups(c, b, a, mode);
    }
    assert forall|a: ResultView, b: ResultView, c: ResultView|
        #![trigger before(a, c), before(a, b)]
        #![trigger before(a, c), before(b, c)]
        before(a, c) implies before(a, b) || before(b, c) by {
        names_form_groups(a, b, c);
        keys_form_groups(a, b, c, mode);
        keys_form_groups(c, b, a, mode);
        keys_form_groups(b, c, a, mode);
        keys_form_groups(c, a, b, mode);
        keys_form_groups(b, a, c, mode);
        keys_form_groups(a, c, b, mode);
    }
}

/// 0 for a repository with items, 1 for one whose fetch failed.
fn group_key(result: &RepoResult) -> (res: u8)
    ensures
        res == (if has_items(result@) {
            0u8
        } else {
            1u8
        }),
{
    match &result.status {
        RepoStatus::Items(_) => 0,
        RepoStatus::NotFound | RepoStatus::Error(_) => 1,
    }
}

fn name_cmp(a: &RepoResult, b: &RepoResult) -> (res: Ordering)
    ensures
        (res == Ordering::Less) == name_before(a@, b@),
        (res == Ordering::Greater) == name_before(b@, a@),
{
    let x = to_lower(a.repo.as_str());
    let y = to_lower(b.repo.as_str());
    proof {
        names_form_groups(a@, b@, a@);
    }
    if less(x.as_str(), y.as_str()) {
        Ordering::Less
    } else if less(y.as_str(), x.as_str()) {
        Ordering::Greater
    } else {
        Ordering::Equal
    }
}

/// How two times stand to each other; no time goes last either way.
fn cmp_timestamps_none_last(a: Option<Timestamp>, b: Option<Timestamp>, ascending: bool) -> (res:
    Ordering)
    ensures
        (res == Ordering::Less) == time_before(a, b, ascending),
        (res == Ordering::Greater) == time_before(b, a, ascending),
{
    match (a, b) {
        (Some(x), Some(y)) => {
            let (first, second) = if ascending {
                (x, y)
            } else {
                (y, x)
            };
            if first.is_before(&second) {
                Ordering::Less
            } else if second.is_before(&first) {
                Ordering::Greater
            } else {
                Ordering::Equal
            }
        },
        (Some(_), None) => Ordering::Less,
        (None, Some(_)) => Ordering::Greater,
        (None, None) => Ordering::Equal,
    }
}

fn count_of(result: &RepoResult) -> (res: usize)
    ensures
        res == items_in(result@).len(),
{
    match &result.status {
        RepoStatus::Items(items) => items.len(),
        _ => 0,
    }
}

fn latest_of(items: &Vec<RepoItem>) -> (res: Option<Timestamp>)
    ensures
        res == latest(views(items@)),
{
    let mut best: Option<Timestamp> = None;
    let mut i: usize = 0;
    let ghost all = views(items@);
    assert(all.take(0) =~= Seq::empty());
    while i < items.len()
        invariant
            i <= items@.len(),
            all == views(items@),
            best == latest(all.take(i as int)),
        decreases items@.len() - i,
    {
        assert(all.take(i + 1).drop_last() =~= all.take(i as int));
        assert(all.take(i + 1).last() == items@[i as int]@);
        let at = items[i].updated_at;
        best = match best {
            Some(other) => if at.is_before(&other) {
                Some(other)
            } else {
                Some(at)
            },
            None => Some(at),
        };
        i = i + 1;
    }
    assert(all.take(i as int) =~= all);
    best
}

fn oldest_of(items: &Vec<RepoItem>) -> (res: Option<Timestamp>)
    ensures
        res == oldest(views(items@)),
{
    let mut best: Option<Timestamp> = None;
    let mut i: usize = 0;
    let ghost all = views(items@);
    assert(all.take(0) =~= Seq::empty());
    while i < items.len()
        invariant
            i <= items@.len(),
            all == views(items@),
            best == oldest(all.take(i as int)),
        decreases items@.len() - i,
    {
        assert(all.take(i + 1).drop_last() =~= all.take(i as int));
        assert(all.take(i + 1).last() == items@[i as int]@);
        let at = items[i].updated_at;
        best = match best {
            Some(other) => if at.is_before(&other) {
                Some(at)
            } else {
                Some(other)
            },
            None => Some(at),
        };
        i = i + 1;
    }
    assert(all.take(i as int) =~= all);
    best
}

fn max_updated(result: &RepoResult) -> (res: Option<Timestamp>)
    ensures
        res == latest(items_in(result@)),
{
    match &result.status {
        RepoStatus::Items(items) => latest_of(items),
        _ => None,
    }
}

fn min_updated(result: &RepoResult) -> (res: Option<Timestamp>)
    ensures
        res == oldest(items_in(result@)),
{
    match &result.status {
        RepoStatus::Items(items) => oldest_of(items),
        _ => None,
    }
}

fn key_cmp(a: &RepoResult, b: &RepoResult, mode: SortMode) -> (res: Ordering)
    ensures
        (res == Ordering::Less) == key_before(a@, b@, mode),
        (res == Ordering::Greater) == key_before(b@, a@, mode),
{
    match mode {
        SortMode::Name => name_cmp(a, b),
        SortMode::Count => {
            let x = count_of(a);
            let y = count_of(b);
            if x > y {
                Ordering::Less
            } else if x < y {
                Ordering::Greater
            } else {
                Ordering::Equal
            }
        },
        SortMode::Activity => cmp_timestamps_none_last(max_updated(a), max_updated(b), false),
        SortMode::Stale => cmp_timestamps_none_last(min_updated(a), min_updated(b), true),
    }
}

fn goes_before(a: &RepoResult, b: &RepoResult, mode: SortMode) -> (res: bool)
    ensures
        res == result_before(a@, b@, mode),
{
    let x = group_key(a);
    let y = group_key(b);
    if x != y || x != 0 {
        return x < y;
    }
    proof {
        keys_form_groups(a@, b@, a@, mode);
    }
    match key_cmp(a, b, mode) {
        Ordering::Less => true,
        Ordering::Greater => false,
        Ordering::Equal => match name_cmp(a, b) {
            Ordering::Less => true,
            _ => false,
        },
    }
}

/// Puts the repositories into the order of the digest.
pub fn sort_results(results: &mut Vec<RepoResult>, mode: SortMode)
    ensures
        views(final(results)@) == ordered(views(old(results)@), mode),
        in_digest_order(views(final(results)@), views(old(results)@), mode),
{
    proof {
        the_digest_is_in_order(views(results@), mode);
    }
    let mut taken: Vec<RepoResult> = Vec::new();
    std::mem::swap(results, &mut taken);
    let before = |a: &RepoResult, b: &RepoResult| -> (r: bool)
        ensures
            r == result_before(a@, b@, mode),
        { goes_before(a, b, mode) };
    proof {
        result_order_is_strict_weak(mode);
    }
    let mut done = sort_by(taken, before, Ghost(result_order(mode)));
    std::mem::swap(results, &mut done);
}

/// Whether the fetch of a repository failed, as a predicate value.
pub open spec fn failed() -> spec_fn(ResultView) -> bool {
    |result: ResultView| !has_items(result)
}

/// Sorting neither adds nor loses a repository.
pub proof fn sorting_keeps_every_repo(results: Seq<ResultView>, mode: SortMode)
    ensures
        ordered(results, mode).to_multiset() == results.to_multiset(),
        ordered(results, mode).len() == results.len(),
{
    stable_sort_permutes(results, result_order(mode));
}

/// What failed stands behind what has items, in the order that it had.
pub proof fn failed_repos_go_last(results: Seq<ResultView>, mode: SortMode)
    ensures
        forall|i: int, j: int|
            #![trigger ordered(results, mode)[i], ordered(results, mode)[j]]
            0 <= i < j < results.len() && has_items(ordered(results, mode)[j]) ==> has_items(
                ordered(results, mode)[i],
            ),
        ordered(results, mode).filter(failed()) == results.filter(failed()),
{
    let before = result_order(mode);
    result_order_is_strict_weak(mode);
    stable_sort_sorts(results, before);
    stable_sort_permutes(results, before);
    let out = ordered(results, mode);
    assert forall|i: int, j: int|
        #![trigger out[i], out[j]]
        0 <= i < j < results.len() && has_items(out[j]) implies has_items(out[i]) by {
        assert(!before(out[j], out[i]));
    }
    let some = ResultView { repo: Seq::empty(), status: StatusView::NotFound, upstream: None };
    stable_sort_keeps_ties(results, before, some);
    assert(ties(before, some) =~= failed());
}

/// Among repositories with items nothing stands behind what goes after it by the mode, and what
/// the mode does not tell apart stands in the order of names.
pub proof fn items_stand_in_order(results: Seq<ResultView>, mode: SortMode, i: int, j: int)
    requires
        0 <= i < j < results.len(),
        has_items(ordered(results, mode)[i]),
        has_items(ordered(results, mode)[j]),
    ensures
        !key_before(ordered(results, mode)[j], ordered(results, mode)[i], mode),
        !key_before(ordered(results, mode)[i], ordered(results, mode)[j], mode) ==> !name_before(
            ordered(results, mode)[j],
            ordered(results, mode)[i],
        ),
{
    let before = result_order(mode);
    result_order_is_strict_weak(mode);
    stable_sort_sorts(results, before);
    stable_sort_permutes(results, before);
    let out = ordered(results, mode);
    assert(!before(out[j], out[i]));
}

/// Sorting what is sorted changes nothing.
pub proof fn sorting_again_changes_nothing(results: Seq<ResultView>, mode: SortMode)
    ensures
        ordered(ordered(results, mode), mode) == ordered(results, mode),
{
    let before = result_order(mode);
    let once = ordered(results, mode);
    result_order_is_strict_weak(mode);
    assert forall|x: ResultView| #[trigger] once.filter(ties(before, x)) == results.filter(
        ties(before, x),
    ) by {
        stable_sort_keeps_ties(results, before, x);
    }
    same_groups_sort_alike(once, results, before);
}

/// An earlier sort leaves no trace in a later one, whatever the two modes are, where no two
/// repositories with items go by the same name but for the case of its letters.
pub proof fn earlier_sort_leaves_no_trace(
    results: Seq<ResultView>,
    first: SortMode,
    mode: SortMode,
)
    requires
        forall|i: int, j: int|
            #![trigger results[i], results[j]]
            0 <= i < j < results.len() && has_items(results[i]) && has_items(results[j]) ==> lower(
                results[i].repo,
            ) != lower(results[j].repo),
    ensures
        ordered(ordered(results, first), mode) == ordered(results, mode),
{
    let before = result_order(mode);
    let once = ordered(results, first);
    result_order_is_strict_weak(mode);
    sorting_keeps_every_repo(results, first);
    failed_repos_go_last(results, first);
    assert forall|x: ResultView| #[trigger] once.filter(ties(before, x)) == results.filter(
        ties(before, x),
    ) by {
        let p = ties(before, x);
        if has_items(x) {
            assert forall|y: ResultView| #[trigger] p(y) implies has_items(y) && lower(y.repo)
                == lower(x.repo) by {
                text_before_total(lower(x.repo), lower(y.repo));
                keys_form_groups(x, y, x, mode);
            }
            if exists|i: int| 0 <= i < results.len() && p(#[trigger] results[i]) {
                let i = choose|i: int| 0 <= i < results.len() && p(#[trigger] results[i]);
                assert forall|j: int| 0 <= j < results.len() && j != i implies !p(
                    #[trigger] results[j],
                ) by {}
                filter_one(results, p, i);
            } else {
                filter_none(results, p);
            }
            lone_elements_are_filtered_alike(results, once, p);
        } else {
            assert(p =~= failed());
        }
    }
    same_groups_sort_alike(once, results, before);
}

/// A repository without items stands behind those with items, where the mode looks at times.
pub proof fn repos_without_items_follow(results: Seq<ResultView>, mode: SortMode, i: int, j: int)
    requires
        mode == SortMode::Activity || mode == SortMode::Stale,
        0 <= i < j < results.len(),
        has_items(ordered(results, mode)[i]),
        has_items(ordered(results, mode)[j]),
        items_in(ordered(results, mode)[j]).len() > 0,
    ensures
        items_in(ordered(results, mode)[i]).len() > 0,
{
    items_stand_in_order(results, mode, i, j);
    times_bound_items(items_in(ordered(results, mode)[i]));
    times_bound_items(items_in(ordered(results, mode)[j]));
}

/// The name of the mode that is asked for: the flag goes before the configuration.
pub open spec fn mode_name(flag: Option<Seq<char>>, configured: Option<Seq<char>>) -> Seq<char> {
    match flag {
        Some(name) => name,
        None => match configured {
            Some(name) => name,
            None => "activity"@,
        },
    }
}

/// The line that tells the user that `name` names no mode.
pub open spec fn unknown_mode(name: Seq<char>) -> Seq<char> {
    "unknown sort mode: "@ + name + " (available: activity, name, count, stale)"@
}

/// The mode that the flag asks for, else the configuration, else that of activity. What names no
/// mode is told.
pub fn resolve_mode(flag: Option<&str>, configured: Option<&str>) -> (res: Result<SortMode, String>)
    ensures
        ({
            let name = mode_name(opt_str(flag), opt_str(configured));
            match res {
                Ok(mode) => mode_named(name) == Some(mode),
                Err(text) => mode_named(name) is None && text@ == unknown_mode(name),
            }
        }),
{
    let name = match flag {
        Some(name) => name,
        None => match configured {
            Some(name) => name,
            None => "activity",
        },
    };
    match SortMode::by_name(name) {
        Some(mode) => Ok(mode),
        None => {
            let mut text = "unknown sort mode: ".to_owned();
            text.append(name);
            text.append(" (available: activity, name, count, stale)");
            Err(text)
        },
    }
}

} // verus!
