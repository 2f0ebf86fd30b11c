use ghpending::model::{ItemKind, RepoError, RepoItem, RepoResult, RepoStatus, Timestamp};
use ghpending::sort::{resolve_mode, sort_results, SortMode, SORT_NAMES};

// 2026-01-01T00:00:00Z
const BASE: i64 = 1_767_225_600;
const DAY: i64 = 86_400;

fn item(number: u64, updated_days_ago: i64) -> RepoItem {
    RepoItem {
        kind: ItemKind::Issue,
        number,
        title: format!("item {number}"),
        created_at: Timestamp { secs: BASE, nanos: 0 },
        updated_at: Timestamp { secs: BASE - updated_days_ago * DAY, nanos: 0 },
        author: "user".into(),
        pr_draft: None,
        comments: None,
        review_decision: None,
        mine: false,
    }
}

fn items_repo(name: &str, updated_days_ago: &[i64]) -> RepoResult {
    RepoResult::new(
        name.into(),
        RepoStatus::Items(
            updated_days_ago
                .iter()
                .enumerate()
                .map(|(i, &days)| item(i as u64 + 1, days))
                .collect(),
        ),
    )
}

fn empty_repo(name: &str) -> RepoResult {
    RepoResult::new(name.into(), RepoStatus::Items(vec![]))
}

fn error_repo(name: &str) -> RepoResult {
    RepoResult::new(name.into(), RepoStatus::Error(RepoError::Timeout))
}

fn not_found_repo(name: &str) -> RepoResult {
    RepoResult::new(name.into(), RepoStatus::NotFound)
}

fn names(results: &[RepoResult]) -> Vec<&str> {
    results.iter().map(|r| r.repo.as_str()).collect()
}

fn mixed_fixture() -> Vec<RepoResult> {
    vec![
        items_repo("z/stale-many", &[10, 20, 30]),
        items_repo("a/fresh-one", &[0]),
        error_repo("m/flaky"),
        empty_repo("e/empty"),
        not_found_repo("n/missing"),
        items_repo("b/mid", &[1, 2]),
    ]
}

#[test]
fn by_name_recognizes_all_modes() {
    assert_eq!(SortMode::by_name("activity"), Some(SortMode::Activity));
    assert_eq!(SortMode::by_name("name"), Some(SortMode::Name));
    assert_eq!(SortMode::by_name("count"), Some(SortMode::Count));
    assert_eq!(SortMode::by_name("stale"), Some(SortMode::Stale));
    assert_eq!(SortMode::by_name("bogus"), None);
}

#[test]
fn every_listed_name_names_a_mode() {
    assert_eq!(SORT_NAMES, ["activity", "name", "count", "stale"]);
    assert!(SORT_NAMES.iter().all(|name| SortMode::by_name(name).is_some()));
}

#[test]
fn activity_orders_by_most_recently_updated_item_descending() {
    let mut results = mixed_fixture();
    sort_results(&mut results, SortMode::Activity);
    assert_eq!(
        names(&results),
        vec![
            "a/fresh-one",
            "b/mid",
            "z/stale-many",
            "e/empty",
            "m/flaky",
            "n/missing",
        ]
    );
}

#[test]
fn name_orders_case_insensitive_alphabetically() {
    let mut results = mixed_fixture();
    sort_results(&mut results, SortMode::Name);
    assert_eq!(
        names(&results),
        vec![
            "a/fresh-one",
            "b/mid",
            "e/empty",
            "z/stale-many",
            "m/flaky",
            "n/missing",
        ]
    );
}

#[test]
fn count_orders_by_item_count_descending_ties_by_name() {
    let mut results = mixed_fixture();
    sort_results(&mut results, SortMode::Count);
    assert_eq!(
        names(&results),
        vec![
            "z/stale-many",
            "b/mid",
            "a/fresh-one",
            "e/empty",
            "m/flaky",
            "n/missing",
        ]
    );
}

#[test]
fn stale_orders_by_oldest_updated_item_ascending() {
    let mut results = mixed_fixture();
    sort_results(&mut results, SortMode::Stale);
    assert_eq!(
        names(&results),
        vec![
            "z/stale-many",
            "b/mid",
            "a/fresh-one",
            "e/empty",
            "m/flaky",
            "n/missing",
        ]
    );
}

#[test]
fn ties_break_alphabetically_case_insensitive() {
    let mut results = vec![
        items_repo("B/repo", &[5]),
        items_repo("a/repo", &[5]),
        items_repo("C/repo", &[5]),
    ];
    sort_results(&mut results, SortMode::Activity);
    assert_eq!(names(&results), vec!["a/repo", "B/repo", "C/repo"]);
}

#[test]
fn count_ties_break_alphabetically() {
    let mut results = vec![items_repo("z/two", &[1, 2]), items_repo("a/two", &[1, 2])];
    sort_results(&mut results, SortMode::Count);
    assert_eq!(names(&results), vec!["a/two", "z/two"]);
}

#[test]
fn errors_and_not_found_always_go_last_preserving_relative_order() {
    for mode in [
        SortMode::Activity,
        SortMode::Name,
        SortMode::Count,
        SortMode::Stale,
    ] {
        let mut results = vec![
            error_repo("z/err-first"),
            items_repo("a/items", &[1]),
            not_found_repo("m/missing-second"),
        ];
        sort_results(&mut results, mode);
        assert_eq!(names(&results)[0], "a/items");
        assert_eq!(
            &names(&results)[1..],
            vec!["z/err-first", "m/missing-second"],
            "mode {mode:?} should preserve relative order of failed repos"
        );
    }
}

#[test]
fn empty_items_repo_sorts_after_repos_with_items() {
    let mut results = vec![empty_repo("a/empty"), items_repo("z/has-items", &[1])];
    sort_results(&mut results, SortMode::Activity);
    assert_eq!(names(&results), vec!["z/has-items", "a/empty"]);
}

#[test]
fn empty_items_repo_sorts_after_repos_with_items_in_stale_mode() {
    let mut results = vec![empty_repo("a/empty"), items_repo("z/has-items", &[1])];
    sort_results(&mut results, SortMode::Stale);
    assert_eq!(names(&results), vec!["z/has-items", "a/empty"]);
}

#[test]
fn flag_goes_before_configured_mode() {
    assert_eq!(resolve_mode(Some("count"), Some("name")), Ok(SortMode::Count));
    assert_eq!(resolve_mode(None, Some("name")), Ok(SortMode::Name));
    assert_eq!(resolve_mode(None, None), Ok(SortMode::Activity));
    assert_eq!(
        resolve_mode(Some("bogus"), Some("name")),
        Err("unknown sort mode: bogus (available: activity, name, count, stale)".to_owned())
    );
}

#[test]
fn earlier_sorts_leave_no_trace() {
    let modes = [SortMode::Activity, SortMode::Name, SortMode::Count, SortMode::Stale];
    for mode in modes {
        let mut direct = mixed_fixture();
        sort_results(&mut direct, mode);
        for first in modes {
            let mut again = mixed_fixture();
            sort_results(&mut again, first);
            sort_results(&mut again, mode);
            assert_eq!(names(&again), names(&direct));
        }
    }
    let mut by_count = mixed_fixture();
    sort_results(&mut by_count, SortMode::Name);
    sort_results(&mut by_count, SortMode::Count);
    assert_eq!(
        names(&by_count),
        vec!["z/stale-many", "b/mid", "a/fresh-one", "e/empty", "m/flaky", "n/missing"]
    );
}
