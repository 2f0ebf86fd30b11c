use std::collections::HashSet;

use ghpending::github::{split_repo, SubscribedItems};
use ghpending::graphql::{
    build_query, build_search_query, effective_fork_parent, item_from_search_node,
    map_review_decision, parse_envelope, parse_search_envelope, repo_query, search_query, Author,
    CommentsCount, Connection, ForkTarget, GraphQlEnvelope, GraphQlError, ItemNode, Parent,
    PathSegment, RepoNode, SearchConnection, SearchEnvelope, SearchNode, ValidRepo,
};
use ghpending::model::{ItemKind, RepoError, RepoStatus, Timestamp};
use ghpending::name_map::NameMap;

fn valid_repo(original_index: usize, repo: &str) -> ValidRepo {
    let (owner, name) = split_repo(repo).unwrap();
    ValidRepo {
        original_index,
        repo: repo.to_owned(),
        owner: owner.to_owned(),
        name: name.to_owned(),
    }
}

fn at(text: &str) -> Timestamp {
    let at = chrono::DateTime::parse_from_rfc3339(text).unwrap();
    Timestamp { secs: at.timestamp(), nanos: at.timestamp_subsec_nanos() }
}

fn node(number: u64, title: &str, time: &str, author: Option<&str>, draft: Option<bool>) -> ItemNode {
    ItemNode {
        number,
        title: title.to_owned(),
        created_at: at(time),
        updated_at: at(time),
        author: author.map(|login| Author { login: login.to_owned() }),
        is_draft: draft,
    }
}

fn list(total_count: u64, nodes: Vec<ItemNode>) -> Connection {
    Connection { total_count, nodes }
}

fn repo_node(issues: Connection, pull_requests: Connection) -> RepoNode {
    RepoNode { issues, pull_requests, is_fork: false, parent: None }
}

fn answer(entries: Vec<(&str, Option<RepoNode>)>) -> GraphQlEnvelope {
    let mut data = NameMap::new();
    for (alias, node) in entries {
        data.insert(alias.to_owned(), node);
    }
    GraphQlEnvelope { data: Some(data), errors: None }
}

fn error(kind: &str, path: Option<&str>, message: &str) -> GraphQlError {
    GraphQlError {
        error_type: Some(kind.to_owned()),
        path: path.map(|alias| vec![PathSegment::Name(alias.to_owned())]),
        message: message.to_owned(),
    }
}

fn fork_target(local_index: usize, repo: &str, parent: &str) -> ForkTarget {
    let (owner, _) = split_repo(repo).unwrap();
    ForkTarget {
        original_index: local_index,
        repo: repo.to_owned(),
        parent: parent.to_owned(),
        fork_owner: owner.to_owned(),
    }
}

fn search_node(typename: &str, number: Option<u64>) -> SearchNode {
    SearchNode {
        typename: typename.to_owned(),
        number,
        title: None,
        created_at: None,
        updated_at: None,
        author: None,
        comments: None,
        is_draft: None,
        review_decision: None,
    }
}

fn search_answer(alias: &str, nodes: Vec<SearchNode>) -> SearchEnvelope {
    let mut data = NameMap::new();
    data.insert(alias.to_owned(), Some(SearchConnection { nodes }));
    SearchEnvelope { data: Some(data), errors: None }
}

#[test]
fn effective_fork_parent_honors_overrides() {
    let opt_out = String::new();
    let custom = "someone/else".to_owned();
    // "" opts a detected fork out of the upstream view.
    assert_eq!(
        effective_fork_parent(Some(&opt_out), Some("up/stream".into())),
        None
    );
    // A non-empty manual entry wins over detection.
    assert_eq!(
        effective_fork_parent(Some(&custom), Some("up/stream".into())),
        Some("someone/else".into())
    );
    // No entry defers to detection, either way.
    assert_eq!(
        effective_fork_parent(None, Some("up/stream".into())),
        Some("up/stream".into())
    );
    assert_eq!(effective_fork_parent(None, None), None);
}

#[test]
fn build_query_aliases_repos_in_order() {
    let chunk = vec![valid_repo(0, "acme/widget"), valid_repo(1, "acme/gadget")];
    let query = build_query(&chunk);
    assert!(query.contains(r#"r0: repository(owner: "acme", name: "widget")"#));
    assert!(query.contains(r#"r1: repository(owner: "acme", name: "gadget")"#));
    assert!(query.contains("states: OPEN"));
}

#[test]
fn query_text_is_exact() {
    assert_eq!(
        repo_query(12, "\"a\"", "\"b\""),
        "\n  r12: repository(owner: \"a\", name: \"b\") {\n    isFork\n    parent { nameWithOwner }\n    issues(states: OPEN, first: 100) { totalCount nodes { number title createdAt updatedAt author { login } } }\n    pullRequests(states: OPEN, first: 100) { totalCount nodes { number title createdAt updatedAt author { login } isDraft } }\n  }"
    );
    let query = build_query(&[valid_repo(0, "a/b")]);
    assert_eq!(query, format!("query {{{}\n}}", repo_query(0, "\"a\"", "\"b\"")));
    assert_eq!(build_query(&[]), "query {\n}");
    assert_eq!(
        search_query(3, "\"w\""),
        "\n  s3: search(query: \"w\", type: ISSUE, first: 100) { nodes { __typename ... on Issue { number title createdAt updatedAt author { login } comments { totalCount } } ... on PullRequest { number title createdAt updatedAt author { login } comments { totalCount } isDraft reviewDecision } } }"
    );
}

#[test]
fn quotes_in_names_are_escaped() {
    let query = build_query(&[valid_repo(0, "a\"x/b\\y")]);
    assert!(query.contains(r#"owner: "a\"x", name: "b\\y""#));
}

#[test]
fn parses_normal_repo_with_items() {
    let chunk = vec![valid_repo(5, "acme/widget")];
    let envelope = answer(vec![(
        "r0",
        Some(repo_node(
            list(1, vec![node(3, "bug", "2026-01-01T00:00:00Z", Some("alice"), None)]),
            list(1, vec![node(7, "feature", "2026-01-02T00:00:00Z", Some("bob"), Some(true))]),
        )),
    )]);

    let result = parse_envelope(&chunk, envelope, None);
    assert_eq!(result.len(), 1);
    assert_eq!(result[0].original_index, 5);
    assert!(!result[0].needs_fallback);
    let RepoStatus::Items(items) = &result[0].status else {
        panic!("expected items")
    };
    assert_eq!(items.len(), 2);
    assert_eq!(items[0].kind, ItemKind::PullRequest);
    assert_eq!(items[0].number, 7);
    assert_eq!(items[0].pr_draft, Some(true));
    assert_eq!(items[1].kind, ItemKind::Issue);
}

#[test]
fn not_found_error_maps_to_not_found_status_without_poisoning_other_aliases() {
    let chunk = vec![valid_repo(0, "acme/gone"), valid_repo(1, "acme/widget")];
    let mut envelope = answer(vec![
        ("r0", None),
        ("r1", Some(repo_node(list(0, vec![]), list(0, vec![])))),
    ]);
    envelope.errors = Some(vec![error(
        "NOT_FOUND",
        Some("r0"),
        "Could not resolve to a Repository",
    )]);

    let result = parse_envelope(&chunk, envelope, None);
    assert!(matches!(result[0].status, RepoStatus::NotFound));
    assert!(matches!(result[1].status, RepoStatus::Items(ref items) if items.is_empty()));
}

#[test]
fn missing_author_becomes_ghost() {
    let chunk = vec![valid_repo(0, "acme/widget")];
    let envelope = answer(vec![(
        "r0",
        Some(repo_node(
            list(1, vec![node(1, "orphan", "2026-01-01T00:00:00Z", None, None)]),
            list(0, vec![]),
        )),
    )]);

    let result = parse_envelope(&chunk, envelope, None);
    let RepoStatus::Items(items) = &result[0].status else {
        panic!("expected items")
    };
    assert_eq!(items[0].author, "ghost");
}

#[test]
fn overflow_beyond_page_size_requests_fallback() {
    let chunk = vec![valid_repo(0, "acme/busy")];
    let envelope = answer(vec![(
        "r0",
        Some(repo_node(list(150, vec![]), list(0, vec![]))),
    )]);

    let result = parse_envelope(&chunk, envelope, None);
    assert!(result[0].needs_fallback);
}

#[test]
fn full_page_requests_no_fallback() {
    let chunk = vec![valid_repo(0, "acme/busy")];
    let envelope = answer(vec![(
        "r0",
        Some(repo_node(list(100, vec![]), list(100, vec![]))),
    )]);
    assert!(!parse_envelope(&chunk, envelope, None)[0].needs_fallback);
    let envelope = answer(vec![(
        "r0",
        Some(repo_node(list(0, vec![]), list(101, vec![]))),
    )]);
    assert!(parse_envelope(&chunk, envelope, None)[0].needs_fallback);
}

#[test]
fn subscribed_filter_narrows_items() {
    let chunk = vec![valid_repo(0, "acme/widget")];
    let envelope = answer(vec![(
        "r0",
        Some(repo_node(
            list(
                2,
                vec![
                    node(1, "a", "2026-01-01T00:00:00Z", Some("alice"), None),
                    node(2, "b", "2026-01-01T00:00:00Z", Some("alice"), None),
                ],
            ),
            list(0, vec![]),
        )),
    )]);

    let mut subscribed = SubscribedItems::new();
    subscribed.insert("acme/widget".to_owned(), HashSet::from([1]));

    let result = parse_envelope(&chunk, envelope, Some(&subscribed));
    let RepoStatus::Items(items) = &result[0].status else {
        panic!("expected items")
    };
    assert_eq!(items.len(), 1);
    assert_eq!(items[0].number, 1);
}

#[test]
fn pathless_error_marks_every_repo_in_chunk_as_error_not_not_found() {
    let chunk = vec![valid_repo(0, "acme/widget"), valid_repo(1, "acme/gadget")];
    let envelope = GraphQlEnvelope {
        data: None,
        errors: Some(vec![error("RATE_LIMITED", None, "API rate limit exceeded")]),
    };

    let result = parse_envelope(&chunk, envelope, None);
    assert_eq!(result.len(), 2);
    for item in &result {
        assert!(
            matches!(&item.status, RepoStatus::Error(RepoError::Api(m)) if m.contains("rate limit")),
            "expected rate-limit error, got {:?}",
            item.status
        );
        assert!(!matches!(item.status, RepoStatus::NotFound));
    }
}

#[test]
fn several_pathless_errors_are_told_together() {
    let chunk = vec![valid_repo(0, "a/b")];
    let other = GraphQlError {
        error_type: None,
        path: Some(vec![PathSegment::Other]),
        message: "two".into(),
    };
    let empty = GraphQlError { error_type: None, path: Some(vec![]), message: "three".into() };
    let envelope = GraphQlEnvelope {
        data: None,
        errors: Some(vec![error("X", None, "one"), other, empty]),
    };
    let result = parse_envelope(&chunk, envelope, None);
    assert!(matches!(
        &result[0].status,
        RepoStatus::Error(RepoError::Api(m)) if m == "one; two; three"
    ));
}

#[test]
fn empty_answers_fail_every_repo() {
    let chunk = vec![valid_repo(0, "a/b")];
    for errors in [None, Some(vec![])] {
        let result = parse_envelope(&chunk, GraphQlEnvelope { data: None, errors }, None);
        assert!(matches!(
            &result[0].status,
            RepoStatus::Error(RepoError::Api(m)) if m == "empty GraphQL response"
        ));
    }
    // an answer that says nothing of the repository is no failure
    let result = parse_envelope(&chunk, answer(vec![]), None);
    assert!(matches!(result[0].status, RepoStatus::NotFound));
}

#[test]
fn non_not_found_error_maps_to_error_status() {
    let chunk = vec![valid_repo(0, "acme/forbidden")];
    let mut envelope = answer(vec![("r0", None)]);
    envelope.errors = Some(vec![error(
        "FORBIDDEN",
        Some("r0"),
        "Resource protected by organization SAML enforcement",
    )]);

    let result = parse_envelope(&chunk, envelope, None);
    assert!(
        matches!(&result[0].status, RepoStatus::Error(RepoError::Api(m)) if m.contains("SAML"))
    );
}

#[test]
fn first_error_of_a_repo_is_told() {
    let chunk = vec![valid_repo(0, "a/b")];
    let mut envelope = answer(vec![]);
    envelope.errors = Some(vec![
        error("FORBIDDEN", Some("r0"), "first"),
        error("FORBIDDEN", Some("r0"), "second"),
    ]);
    let result = parse_envelope(&chunk, envelope, None);
    assert!(matches!(&result[0].status, RepoStatus::Error(RepoError::Api(m)) if m == "first"));
}

#[test]
fn fork_with_parent_is_detected_and_excluded_from_fallback() {
    let chunk = vec![valid_repo(0, "akitaonrails/omarchy")];
    let mut fork = repo_node(list(150, vec![]), list(0, vec![]));
    fork.is_fork = true;
    fork.parent = Some(Parent { name_with_owner: "omacom/omarchy".into() });
    let envelope = answer(vec![("r0", Some(fork))]);

    let result = parse_envelope(&chunk, envelope, None);
    assert_eq!(result[0].fork_parent.as_deref(), Some("omacom/omarchy"));
    // Even though the fork's own issues overflow the page, the caller
    // discards them for the search-based upstream fetch instead.
    assert!(result[0].needs_fallback);
}

#[test]
fn non_fork_repo_has_no_fork_parent() {
    let chunk = vec![valid_repo(0, "acme/widget")];
    let envelope = answer(vec![(
        "r0",
        Some(repo_node(list(0, vec![]), list(0, vec![]))),
    )]);

    let result = parse_envelope(&chunk, envelope, None);
    assert_eq!(result[0].fork_parent, None);
}

#[test]
fn build_search_query_aliases_targets_with_repo_and_author_filters() {
    let target = fork_target(0, "akitaonrails/omarchy", "omacom/omarchy");
    let chunk: Vec<(usize, &ForkTarget)> = vec![(0, &target)];
    let query = build_search_query(&chunk);
    assert!(query.contains("s0: search(query:"));
    assert!(query.contains("repo:omacom/omarchy author:akitaonrails is:open"));
    assert!(query.contains("type: ISSUE"));
    assert!(query.contains("... on Issue"));
    assert!(query.contains("... on PullRequest"));
    assert!(query.contains("reviewDecision"));
}

#[test]
fn parse_search_envelope_maps_issue_and_pr_with_comments_and_review_decision() {
    let target = fork_target(5, "akitaonrails/omarchy", "omacom/omarchy");
    let chunk: Vec<(usize, &ForkTarget)> = vec![(5, &target)];
    let mut issue = search_node("Issue", Some(3));
    issue.title = Some("bug".into());
    issue.created_at = Some(at("2026-01-01T00:00:00Z"));
    issue.updated_at = Some(at("2026-01-02T00:00:00Z"));
    issue.author = Some(Author { login: "akitaonrails".into() });
    issue.comments = Some(CommentsCount { total_count: 2 });
    let mut pull = search_node("PullRequest", Some(7));
    pull.title = Some("feature".into());
    pull.created_at = Some(at("2026-01-03T00:00:00Z"));
    pull.updated_at = Some(at("2026-01-04T00:00:00Z"));
    pull.author = Some(Author { login: "akitaonrails".into() });
    pull.comments = Some(CommentsCount { total_count: 5 });
    pull.is_draft = Some(false);
    pull.review_decision = Some("CHANGES_REQUESTED".into());

    let result = parse_search_envelope(&chunk, search_answer("s0", vec![issue, pull]));
    assert_eq!(result.len(), 1);
    let (local_index, repo_result) = &result[0];
    assert_eq!(*local_index, 5);
    assert_eq!(repo_result.upstream.as_deref(), Some("omacom/omarchy"));
    let RepoStatus::Items(items) = &repo_result.status else {
        panic!("expected items")
    };
    assert_eq!(items.len(), 2);
    assert_eq!(items[0].kind, ItemKind::PullRequest);
    assert_eq!(items[0].comments, Some(5));
    assert_eq!(
        items[0].review_decision.as_deref(),
        Some("changes requested")
    );
    assert_eq!(items[1].kind, ItemKind::Issue);
    assert_eq!(items[1].comments, Some(2));
    assert_eq!(items[1].review_decision, None);
}

#[test]
fn search_nodes_without_a_number_are_skipped() {
    let target = fork_target(0, "me/fork", "up/stream");
    let chunk: Vec<(usize, &ForkTarget)> = vec![(0, &target)];
    let nodes = vec![search_node("Other", None), search_node("Issue", Some(1))];
    let result = parse_search_envelope(&chunk, search_answer("s0", nodes));
    let RepoStatus::Items(items) = &result[0].1.status else {
        panic!("expected items")
    };
    assert_eq!(items.len(), 1);
    assert_eq!(items[0].author, "ghost");
    // 2020-01-01: what was created at no known time was created just now
    assert!(items[0].created_at.secs > 1_577_836_800);
}

#[test]
fn draft_and_review_concern_pull_requests_alone() {
    let now = Timestamp { secs: 9, nanos: 0 };
    let mut issue = search_node("Issue", Some(1));
    issue.is_draft = Some(true);
    issue.review_decision = Some("APPROVED".into());
    let item = item_from_search_node(&issue, 1, now);
    assert_eq!(item.pr_draft, None);
    assert_eq!(item.review_decision, None);
    assert_eq!(item.created_at, now);
    assert_eq!(item.updated_at, now);
    issue.typename = "PullRequest".into();
    let item = item_from_search_node(&issue, 1, now);
    assert_eq!(item.pr_draft, Some(true));
    assert_eq!(item.review_decision.as_deref(), Some("approved"));
}

#[test]
fn search_errors_keep_the_upstream() {
    let one = fork_target(0, "me/one", "up/one");
    let two = fork_target(1, "me/two", "up/two");
    let chunk: Vec<(usize, &ForkTarget)> = vec![(0, &one), (1, &two)];
    let mut envelope = search_answer("s1", vec![]);
    envelope.errors = Some(vec![error("NOT_FOUND", Some("s0"), "no such thing")]);
    let result = parse_search_envelope(&chunk, envelope);
    assert!(matches!(
        &result[0].1.status,
        RepoStatus::Error(RepoError::Api(m)) if m == "no such thing"
    ));
    assert_eq!(result[0].1.upstream.as_deref(), Some("up/one"));
    assert!(matches!(&result[1].1.status, RepoStatus::Items(items) if items.is_empty()));

    let failed = parse_search_envelope(&chunk, SearchEnvelope { data: None, errors: None });
    assert!(matches!(
        &failed[1].1.status,
        RepoStatus::Error(RepoError::Api(m)) if m == "empty GraphQL response"
    ));
    let pathless = parse_search_envelope(
        &chunk,
        SearchEnvelope { data: None, errors: Some(vec![error("X", None, "slow down")]) },
    );
    assert!(matches!(
        &pathless[0].1.status,
        RepoStatus::Error(RepoError::Api(m)) if m == "slow down"
    ));
}

#[test]
fn map_review_decision_covers_known_values() {
    assert_eq!(
        map_review_decision(Some("APPROVED")).as_deref(),
        Some("approved")
    );
    assert_eq!(
        map_review_decision(Some("CHANGES_REQUESTED")).as_deref(),
        Some("changes requested")
    );
    assert_eq!(
        map_review_decision(Some("REVIEW_REQUIRED")).as_deref(),
        Some("review pending")
    );
    assert_eq!(map_review_decision(None), None);
    assert_eq!(map_review_decision(Some("SOMETHING_ELSE")), None);
}
