use std::collections::HashSet;

use ghpending::github::{
    absent_result, account_kind_from_type, describe_api_error, first_pages, index_subscribed_items,
    item_cmp, listed_repo_names, login_of, map_github_err, numbers_of, own_outcome, own_result,
    plan_detected, plan_repo, pull_item, reachable_repo_names, repo_name_from_api_url,
    resolve_list_source, rest_items, retain_subscribed, source_from_login, source_from_profile,
    split_repo, upstream_items, upstream_outcome, upstream_parts, upstream_result, AccountKind,
    ApiFailure, ForkCache, GithubError, ItemKind, ListSource, RepoError, RepoInfo, RepoItem,
    RepoPlan, RepoStatus, RestIssue, RestPull, RestRun, SubscribedIssue, Timestamp,
};
use ghpending::http_status::HttpStatus;

fn at(secs: i64) -> Timestamp {
    Timestamp { secs, nanos: 0 }
}

fn make_item(kind: ItemKind, number: u64) -> RepoItem {
    RepoItem {
        kind,
        number,
        title: format!("item {number}"),
        created_at: at(0),
        updated_at: at(0),
        author: "user".into(),
        pr_draft: None,
        comments: None,
        review_decision: None,
        mine: false,
    }
}

fn github_failure(code: u16, message: &str) -> ApiFailure {
    ApiFailure::Github {
        status: HttpStatus::new(code).unwrap(),
        message: message.to_owned(),
    }
}

fn issue(number: u64, is_pull_request: bool) -> RestIssue {
    RestIssue {
        number,
        title: format!("issue {number}"),
        created_at: at(10),
        updated_at: at(20),
        author: "alice".into(),
        comments: 4,
        is_pull_request,
    }
}

fn bare_pull(number: u64) -> RestPull {
    RestPull {
        number,
        title: None,
        created_at: None,
        updated_at: None,
        author: None,
        draft: None,
    }
}

fn numbers(items: &[RepoItem]) -> Vec<u64> {
    items.iter().map(|i| i.number).collect()
}

#[test]
fn account_kind_organization() {
    assert_eq!(
        account_kind_from_type("Organization"),
        AccountKind::Organization
    );
}

#[test]
fn account_kind_user() {
    assert_eq!(account_kind_from_type("User"), AccountKind::User);
}

#[test]
fn account_kind_unknown_defaults_to_user() {
    assert_eq!(account_kind_from_type("Bot"), AccountKind::User);
}

#[test]
fn all_flag_lists_authenticated() {
    assert_eq!(
        resolve_list_source(true, None, "me", None),
        ListSource::Authenticated
    );
}

#[test]
fn own_username_lists_authenticated() {
    assert_eq!(
        resolve_list_source(false, Some("me"), "me", Some(AccountKind::User)),
        ListSource::Authenticated
    );
}

#[test]
fn own_username_is_case_insensitive() {
    assert_eq!(
        resolve_list_source(false, Some("ME"), "me", Some(AccountKind::User)),
        ListSource::Authenticated
    );
}

#[test]
fn org_target_lists_org_repos() {
    assert_eq!(
        resolve_list_source(false, Some("acme"), "me", Some(AccountKind::Organization)),
        ListSource::Org("acme".to_owned())
    );
}

#[test]
fn third_party_user_lists_public_only() {
    assert_eq!(
        resolve_list_source(false, Some("octocat"), "me", Some(AccountKind::User)),
        ListSource::PublicUser("octocat".to_owned())
    );
}

#[test]
fn split_repo_valid() {
    assert_eq!(split_repo("a/b"), Some(("a", "b")));
}

#[test]
fn split_repo_no_slash() {
    assert_eq!(split_repo("abc"), None);
}

#[test]
fn split_repo_trailing_slash() {
    assert_eq!(split_repo("a/"), None);
}

#[test]
fn split_repo_leading_slash() {
    assert_eq!(split_repo("/b"), None);
}

#[test]
fn only_the_first_slash_parts_owner_and_name() {
    assert_eq!(split_repo(""), None);
    assert_eq!(split_repo("/"), None);
    assert_eq!(split_repo("//b"), None);
    // the last character is a slash, but not the first one
    assert_eq!(split_repo("a/b/"), Some(("a", "b/")));
    assert_eq!(split_repo("a//"), Some(("a", "/")));
}

#[test]
fn split_repo_many_slashes() {
    // the name keeps further slashes
    assert_eq!(split_repo("a/b/c"), Some(("a", "b/c")));
}

#[test]
fn subscribed_index_and_filter_keep_only_matching_repo_items() {
    let subscribed = index_subscribed_items(vec![
        SubscribedIssue {
            number: 7,
            repository_url: "https://api.github.com/repos/Acme/Widget".into(),
        },
        SubscribedIssue {
            number: 99,
            repository_url: "https://api.github.com/users/octocat".into(),
        },
    ]);
    let mut items = vec![
        make_item(ItemKind::Issue, 7),
        make_item(ItemKind::PullRequest, 9),
    ];

    retain_subscribed(&mut items, subscribed.get("acme/widget"));

    assert_eq!(items.len(), 1);
    assert_eq!(items[0].number, 7);
}

#[test]
fn missing_subscription_filter_keeps_all_repo_items() {
    let mut items = vec![
        make_item(ItemKind::Issue, 7),
        make_item(ItemKind::PullRequest, 9),
    ];

    retain_subscribed(&mut items, None);

    assert_eq!(items.len(), 2);
}

#[test]
fn github_item_cmp_sorts_prs_before_issues_then_number_desc() {
    let mut items = [
        make_item(ItemKind::Issue, 5),
        make_item(ItemKind::PullRequest, 2),
        make_item(ItemKind::Issue, 10),
        make_item(ItemKind::PullRequest, 8),
    ];
    items.sort_by(item_cmp);
    let numbers: Vec<u64> = items.iter().map(|i| i.number).collect();
    assert_eq!(numbers, vec![8, 2, 10, 5]);
}

#[test]
fn repo_name_needs_owner_and_name_behind_repos() {
    assert_eq!(
        repo_name_from_api_url("https://api.github.com/repos/Acme/Widget/issues/3"),
        Some("acme/widget".to_owned())
    );
    assert_eq!(repo_name_from_api_url("https://x/repos/acme"), None);
    assert_eq!(repo_name_from_api_url("https://x/repos//widget"), None);
    assert_eq!(repo_name_from_api_url("https://x/repos/acme/"), None);
}

#[test]
fn several_subscriptions_of_one_repo_are_gathered() {
    let url = "https://api.github.com/repos/a/b";
    let subscribed = index_subscribed_items(vec![
        SubscribedIssue { number: 1, repository_url: url.into() },
        SubscribedIssue { number: 2, repository_url: url.into() },
    ]);
    assert_eq!(subscribed.get("a/b"), Some(&HashSet::from([1, 2])));
}

#[test]
fn numbers_of_a_repo_without_subscriptions_are_none_at_all() {
    let subscribed = index_subscribed_items(Vec::new());
    let none: HashSet<u64> = HashSet::new();
    assert_eq!(numbers_of(Some(&subscribed), "A/B", &none), Some(&none));
    assert_eq!(numbers_of(None, "A/B", &none), None);
}

#[test]
fn only_404_means_not_found() {
    assert!(matches!(
        map_github_err(Err::<(), ApiFailure>(github_failure(404, "Not Found")), "a/b"),
        Err(GithubError::NotFound(label)) if label == "a/b"
    ));
    assert!(matches!(
        map_github_err(Err::<(), ApiFailure>(github_failure(500, "oops")), "a/b"),
        Err(GithubError::Api(_))
    ));
    assert!(matches!(
        map_github_err(Err::<(), ApiFailure>(ApiFailure::Other("dns".into())), "a/b"),
        Err(GithubError::Api(_))
    ));
}

#[test]
fn api_errors_tell_status_and_message() {
    assert_eq!(
        describe_api_error(&github_failure(403, "rate limited")),
        "HTTP 403 Forbidden rate limited"
    );
    assert_eq!(
        describe_api_error(&github_failure(401, "Bad credentials")),
        "HTTP 401 Unauthorized Bad credentials \u{2014} set GITHUB_TOKEN"
    );
    assert_eq!(describe_api_error(&ApiFailure::Other("no route".into())), "no route");
}

#[test]
fn refused_token_is_no_login() {
    assert!(matches!(login_of(Ok("me".into())), Ok(Some(login)) if login == "me"));
    assert!(matches!(login_of(Err(github_failure(401, "Bad credentials"))), Ok(None)));
    assert!(matches!(login_of(Err(github_failure(500, "oops"))), Err(_)));
}

#[test]
fn own_account_needs_no_profile() {
    assert_eq!(source_from_login(Some("Me"), "me"), Some(ListSource::Authenticated));
    assert_eq!(source_from_login(Some("me"), "acme"), None);
    assert_eq!(source_from_login(None, "acme"), None);
    assert_eq!(
        source_from_profile(None, "acme", "Organization"),
        ListSource::Org("acme".into())
    );
    assert_eq!(
        source_from_profile(Some("me"), "bob", "User"),
        ListSource::PublicUser("bob".into())
    );
}

#[test]
fn listings_are_sorted_and_reachable_ones_deduped() {
    let names = vec![
        Some("b/two".to_owned()),
        None,
        Some("a/one".to_owned()),
        Some("b/two".to_owned()),
    ];
    assert_eq!(listed_repo_names(&names), vec!["a/one", "b/two", "b/two"]);
    assert_eq!(reachable_repo_names(&names), vec!["a/one", "b/two"]);
}

#[test]
fn rest_items_skip_pull_requests_among_issues() {
    let issues = vec![issue(1, false), issue(2, true), issue(3, false)];
    let mut pull = bare_pull(2);
    pull.updated_at = Some(at(30));
    let items = rest_items(&issues, &vec![pull], None);
    assert_eq!(numbers(&items), vec![2, 3, 1]);
    assert_eq!(items[0].kind, ItemKind::PullRequest);
    assert_eq!(items[0].title, "");
    assert_eq!(items[0].author, "ghost");
    // what has no time of creation goes by the other
    assert_eq!(items[0].created_at, at(30));
    assert_eq!(items[0].updated_at, at(30));
    assert_eq!(items[1].comments, None);
}

#[test]
fn rest_items_keep_what_is_subscribed() {
    let issues = vec![issue(1, false), issue(3, false)];
    let wanted: HashSet<u64> = HashSet::from([3]);
    assert_eq!(numbers(&rest_items(&issues, &Vec::new(), Some(&wanted))), vec![3]);
}

#[test]
fn pull_without_any_time_takes_the_clock() {
    let item = pull_item(&bare_pull(5), at(77));
    assert_eq!(item.created_at, at(77));
    assert_eq!(item.updated_at, at(77));
    let mut pull = bare_pull(5);
    pull.created_at = Some(at(1));
    let item = pull_item(&pull, at(77));
    assert_eq!(item.created_at, at(1));
    assert_eq!(item.updated_at, at(1));
}

#[test]
fn clock_reading_lies_in_the_present() {
    // 2020-01-01: the machine's clock is behind that
    let items = rest_items(&Vec::new(), &vec![bare_pull(5)], None);
    assert!(items[0].created_at.secs > 1_577_836_800);
    assert!(items[0].created_at.nanos < 1_000_000_000);
}

#[test]
fn upstream_items_hold_both_kinds_with_comments() {
    let items = upstream_items(&vec![issue(1, false), issue(2, true)]);
    assert_eq!(numbers(&items), vec![2, 1]);
    assert_eq!(items[0].kind, ItemKind::PullRequest);
    assert_eq!(items[0].comments, Some(4));
    assert_eq!(items[0].pr_draft, None);
    assert_eq!(items[1].kind, ItemKind::Issue);
}

#[test]
fn failing_issues_are_told_before_failing_pulls() {
    let both = first_pages::<(), ()>(
        Err(github_failure(404, "gone")),
        Err(github_failure(500, "oops")),
        "a/b",
    );
    assert!(matches!(both, Err(GithubError::NotFound(_))));
    let pulls = first_pages::<(), ()>(Ok(()), Err(github_failure(500, "oops")), "a/b");
    assert!(matches!(pulls, Err(GithubError::Api(_))));
    assert!(first_pages::<(), ()>(Ok(()), Ok(()), "a/b").is_ok());
}

#[test]
fn failing_later_page_is_never_not_found() {
    assert!(matches!(
        own_outcome(Err(github_failure(404, "gone")), Ok(Vec::new()), None),
        Err(GithubError::Api(_))
    ));
    assert!(matches!(
        own_outcome(Ok(Vec::new()), Err(github_failure(404, "gone")), None),
        Err(GithubError::Api(_))
    ));
    assert!(matches!(
        upstream_outcome(Err(github_failure(404, "gone"))),
        Err(GithubError::Api(_))
    ));
}

#[test]
fn results_tell_how_the_fetch_ended() {
    let found = own_result("a/b", Ok(vec![make_item(ItemKind::Issue, 1)]));
    assert_eq!(found.repo, "a/b");
    assert!(matches!(found.status, RepoStatus::Items(ref items) if items.len() == 1));
    assert_eq!(found.upstream, None);

    let gone = own_result("a/b", Err(GithubError::NotFound("a/b".into())));
    assert!(matches!(gone.status, RepoStatus::NotFound));

    let failed = upstream_result("a/b", "up/b", Err(GithubError::Api(github_failure(502, "bad"))));
    assert_eq!(failed.upstream.as_deref(), Some("up/b"));
    assert!(matches!(
        failed.status,
        RepoStatus::Error(RepoError::Api(ref text)) if text == "HTTP 502 Bad Gateway bad"
    ));
    assert!(matches!(absent_result("ab").status, RepoStatus::NotFound));
}

#[test]
fn bad_upstream_is_not_found() {
    assert!(matches!(upstream_parts("up/b"), Ok(("up", "b"))));
    assert!(matches!(
        upstream_parts("nonsense"),
        Err(GithubError::NotFound(label)) if label == "nonsense"
    ));
}

#[test]
fn plans_follow_what_is_known_of_forks() {
    let mut forks = ForkCache::new();
    forks.insert("me/fork".into(), "up/stream".into());
    forks.insert("me/plain".into(), String::new());
    assert!(matches!(plan_repo("nonsense", &forks), RepoPlan::Absent));
    assert!(matches!(plan_repo("me/plain", &forks), RepoPlan::Own));
    assert!(matches!(plan_repo("me/new", &forks), RepoPlan::Detect));
    assert!(matches!(
        plan_repo("me/fork", &forks),
        RepoPlan::Upstream(upstream) if upstream == "up/stream"
    ));
}

#[test]
fn detection_is_remembered_unless_it_failed() {
    let (plan, remembered) = plan_detected("me/new", Ok(RepoInfo {
        fork: Some(true),
        parent: Some("up/stream".into()),
    }));
    assert!(matches!(plan, RepoPlan::Upstream(upstream) if upstream == "up/stream"));
    assert_eq!(remembered, Some(("me/new".to_owned(), "up/stream".to_owned())));

    let (plan, remembered) = plan_detected("me/new", Ok(RepoInfo {
        fork: None,
        parent: Some("up/stream".into()),
    }));
    assert!(matches!(plan, RepoPlan::Own));
    assert_eq!(remembered, Some(("me/new".to_owned(), String::new())));

    let (plan, remembered) = plan_detected("me/new", Err(github_failure(500, "oops")));
    assert!(matches!(plan, RepoPlan::Own));
    assert_eq!(remembered, None);
}

#[test]
fn rest_run_bounds_requests_and_keeps_the_order() {
    let names: Vec<String> = (0..6).map(|i| format!("a/{i}")).collect();
    let mut run = RestRun::new(names);
    let mut started = Vec::new();
    while let Some((index, repo)) = run.next() {
        assert_eq!(repo, format!("a/{index}"));
        started.push(index);
    }
    assert_eq!(started, vec![0, 1, 2, 3]);

    // answers come in another order
    run.on_result(2, own_result("a/2", Ok(Vec::new())), None);
    assert_eq!(run.next().map(|(index, _)| index), Some(4));
    run.on_result(0, absent_result("a/0"), Some(("a/0".into(), "up/0".into())));
    assert_eq!(run.next().map(|(index, _)| index), Some(5));
    assert!(run.next().is_none());
    assert!(!run.is_idle());

    let (results, detected) = run.finish();
    let labels: Vec<&str> = results.iter().map(|r| r.repo.as_str()).collect();
    assert_eq!(labels, vec!["a/0", "a/1", "a/2", "a/3", "a/4", "a/5"]);
    assert!(matches!(results[0].status, RepoStatus::NotFound));
    assert!(matches!(results[1].status, RepoStatus::Error(RepoError::Timeout)));
    assert!(matches!(results[2].status, RepoStatus::Items(_)));
    assert_eq!(detected.get("a/0").map(String::as_str), Some("up/0"));
}

#[test]
fn runs_find_out_only_what_was_not_known() {
    let mut known = ForkCache::new();
    known.insert("me/known".into(), "up/known".into());
    let names = vec!["me/known".to_owned(), "me/new".to_owned(), "nonsense".to_owned()];
    let mut run = RestRun::new(names);
    while let Some((index, repo)) = run.next() {
        let page = Ok(RepoInfo { fork: Some(true), parent: Some("up/told".into()) });
        let found = match plan_repo(&repo, &known) {
            RepoPlan::Detect => plan_detected(&repo, page).1,
            _ => None,
        };
        run.on_result(index, absent_result(&repo), found);
    }
    let (_, detected) = run.finish();
    assert_eq!(detected.get("me/new").map(String::as_str), Some("up/told"));
    assert_eq!(detected.get("me/known"), None);
    assert_eq!(detected.get("nonsense"), None);
}
