use ghpending::config::GitlabConfig;
use ghpending::gitlab::{
    author_name, build_query, describe_listing_error, encode_project_path, group_projects_path,
    issues_path, merge_requests_path, project_items, project_label, project_outcome, project_result,
    sorted_paths, GitlabAuthor, GitlabIssue, GitlabMr, GitlabProject, Pager, GROUP_PROJECTS_FILTER,
    MAX_PAGES, MEMBERSHIP_PROJECTS_FILTER, OPEN_ITEMS_FILTER,
};
use ghpending::gitlab_client::{
    build, failed_at, gitlab_token, host_from_parts, host_from_url, response_head, GitlabHttpError,
    Page, RequestStep, UriParts, UrlError,
};
use ghpending::http_status::HttpStatus;
use ghpending::model::{ItemKind, RepoError, RepoStatus, Timestamp};

fn status(code: u16) -> GitlabHttpError {
    GitlabHttpError::Status(HttpStatus::new(code).unwrap())
}

/// The fields that are read of the entries of a listing, as they come over the wire.
fn text_field(entry: &serde_json::Value, name: &str) -> String {
    entry.get(name).and_then(|v| v.as_str()).unwrap().to_owned()
}

fn author_field(entry: &serde_json::Value) -> Option<GitlabAuthor> {
    entry
        .get("author")
        .and_then(|author| author.get("username"))
        .and_then(|name| name.as_str())
        .map(|name| GitlabAuthor { username: name.to_owned() })
}

fn time_field(entry: &serde_json::Value) -> Timestamp {
    let at = chrono::DateTime::parse_from_rfc3339(&text_field(entry, "created_at")).unwrap();
    Timestamp { secs: at.timestamp(), nanos: at.timestamp_subsec_nanos() }
}

fn issues_in(json: &str) -> Vec<GitlabIssue> {
    let value: serde_json::Value = serde_json::from_str(json).unwrap();
    value
        .as_array()
        .unwrap()
        .iter()
        .map(|entry| GitlabIssue {
            iid: entry.get("iid").and_then(|v| v.as_u64()).unwrap(),
            title: text_field(entry, "title"),
            created_at: time_field(entry),
            author: author_field(entry),
        })
        .collect()
}

fn mrs_in(json: &str) -> Vec<GitlabMr> {
    let value: serde_json::Value = serde_json::from_str(json).unwrap();
    value
        .as_array()
        .unwrap()
        .iter()
        .map(|entry| GitlabMr {
            iid: entry.get("iid").and_then(|v| v.as_u64()).unwrap(),
            title: text_field(entry, "title"),
            created_at: time_field(entry),
            author: author_field(entry),
            draft: entry.get("draft").and_then(|v| v.as_bool()).unwrap_or(false),
        })
        .collect()
}

#[test]
fn encodes_slashes_in_nested_project_path() {
    assert_eq!(
        encode_project_path("grupo/subgrupo/app"),
        "grupo%2Fsubgrupo%2Fapp"
    );
}

#[test]
fn encodes_simple_project_path() {
    assert_eq!(
        encode_project_path("gitlab-org/gitlab-runner"),
        "gitlab%2Dorg%2Fgitlab%2Drunner"
    );
}

#[test]
fn encode_trims_surrounding_whitespace() {
    assert_eq!(encode_project_path("  a/b  "), "a%2Fb");
}

#[test]
fn encodes_each_byte_of_other_letters() {
    assert_eq!(encode_project_path("Ó_9/~"), "%C3%93%5F9%2F%7E");
}

#[test]
fn query_omits_page_on_first_request() {
    assert_eq!(
        build_query(OPEN_ITEMS_FILTER, None),
        "state=opened&per_page=100"
    );
}

#[test]
fn query_carries_next_page_cursor() {
    assert_eq!(
        build_query(OPEN_ITEMS_FILTER, Some("3")),
        "state=opened&per_page=100&page=3"
    );
}

#[test]
fn listing_queries_carry_their_own_filters() {
    assert_eq!(
        build_query(MEMBERSHIP_PROJECTS_FILTER, None),
        "membership=true&simple=true&per_page=100"
    );
    assert_eq!(
        build_query(GROUP_PROJECTS_FILTER, Some("2")),
        "include_subgroups=true&simple=true&per_page=100&page=2"
    );
}

#[test]
fn project_listing_is_sorted_and_deduped() {
    let projects = vec![
        GitlabProject {
            path_with_namespace: "b/two".into(),
        },
        GitlabProject {
            path_with_namespace: "a/one".into(),
        },
        GitlabProject {
            path_with_namespace: "b/two".into(),
        },
    ];
    assert_eq!(sorted_paths(projects), vec!["a/one", "b/two"]);
}

#[test]
fn nested_group_path_is_encoded_for_the_groups_endpoint() {
    // A subgroup path must survive as one path segment.
    assert_eq!(
        encode_project_path("defensoria/solar"),
        "defensoria%2Fsolar"
    );
    assert_eq!(group_projects_path("defensoria/solar"), "/groups/defensoria%2Fsolar/projects");
}

#[test]
fn item_paths_address_the_project() {
    assert_eq!(issues_path("a/b"), "/projects/a%2Fb/issues");
    assert_eq!(merge_requests_path("a/b"), "/projects/a%2Fb/merge_requests");
}

#[test]
fn unauthorized_listing_error_points_at_the_token() {
    let msg = describe_listing_error(status(401)).message;
    assert!(msg.contains("GITLAB_TOKEN"), "unexpected message: {msg}");

    let forbidden = describe_listing_error(status(403)).message;
    assert!(forbidden.contains("GITLAB_TOKEN"));
}

#[test]
fn listing_errors_tell_the_status() {
    assert_eq!(
        describe_listing_error(status(403)).message,
        "GitLab refused the request (http 403 Forbidden). Set GITLAB_TOKEN to a personal access token with the `read_api` scope."
    );
    let broken = describe_listing_error(status(500));
    assert_eq!(broken.message, "http 500 Internal Server Error");
    assert!(broken.causes.is_empty());
    let lost = failed_at(
        RequestStep::Requesting,
        "https://x",
        vec!["client error (Connect)".into(), "no route".into()],
    );
    let told = describe_listing_error(lost);
    assert_eq!(told.message, "requesting https://x");
    assert_eq!(told.causes, vec!["client error (Connect)", "no route"]);
}

#[test]
fn not_found_listing_error_mentions_the_group_path() {
    let msg = describe_listing_error(status(404)).message;
    assert!(msg.contains("group path"), "unexpected message: {msg}");
}

#[test]
fn deserializes_project_listing_payload() {
    let json = r#"[{"id":1,"path_with_namespace":"defensoria/solar/solar-backend",
                    "name":"solar-backend","web_url":"https://x/y"}]"#;
    let value: serde_json::Value = serde_json::from_str(json).unwrap();
    let projects: Vec<GitlabProject> = value
        .as_array()
        .unwrap()
        .iter()
        .map(|entry| GitlabProject {
            path_with_namespace: text_field(entry, "path_with_namespace"),
        })
        .collect();
    assert_eq!(
        sorted_paths(projects),
        vec!["defensoria/solar/solar-backend"]
    );
}

#[test]
fn label_prefixes_project_with_host() {
    assert_eq!(
        project_label("gitlab.com", "gitlab-org/gitlab-runner"),
        "gitlab.com/gitlab-org/gitlab-runner"
    );
    assert_eq!(
        project_label("gitlab.dpe.br", "/nucleo-ti/portal/"),
        "gitlab.dpe.br/nucleo-ti/portal"
    );
}

#[test]
fn deserializes_issue_json_into_the_neutral_model() {
    let json = r#"[{
        "iid": 42,
        "title": "Login quebra com SSO",
        "created_at": "2024-03-11T14:05:00.000Z",
        "author": { "username": "aluna" }
    }]"#;
    let issue = issues_in(json).into_iter().next().unwrap();

    assert_eq!(issue.iid, 42);
    assert_eq!(issue.title, "Login quebra com SSO");
    let created_at = chrono::DateTime::from_timestamp(
        issue.created_at.secs,
        issue.created_at.nanos,
    )
    .unwrap();
    assert_eq!(author_name(issue.author), "aluna");
    assert_eq!(created_at.to_rfc3339(), "2024-03-11T14:05:00+00:00");
}

#[test]
fn deserializes_merge_request_draft_flag() {
    let json = r#"[
        { "iid": 7, "title": "WIP", "created_at": "2024-03-11T14:05:00.000Z",
          "author": { "username": "dev" }, "draft": true },
        { "iid": 8, "title": "Ready", "created_at": "2024-03-11T14:05:00.000Z",
          "author": { "username": "dev" } }
    ]"#;
    let mrs = mrs_in(json);
    assert!(mrs[0].draft);
    // `draft` absent: not a draft
    assert!(!mrs[1].draft);
    let items = project_items(mrs, Vec::new());
    assert_eq!(items[0].pr_draft, Some(false));
    assert_eq!(items[1].pr_draft, Some(true));
}

#[test]
fn missing_author_falls_back_to_unknown() {
    let json = r#"[{
        "iid": 1, "title": "Órfã", "created_at": "2024-03-11T14:05:00.000Z",
        "author": null
    }]"#;
    assert_eq!(
        author_name(issues_in(json).into_iter().next().unwrap().author),
        "unknown"
    );
}

#[test]
fn project_items_list_merge_requests_first() {
    let at = "2024-03-11T14:05:00Z";
    let issues = issues_in(&format!(
        r#"[{{"iid": 9, "title": "bug", "created_at": "{at}", "author": null}}]"#
    ));
    let mrs = mrs_in(&format!(
        r#"[{{"iid": 2, "title": "mr", "created_at": "{at}", "author": {{"username": "dev"}}}}]"#
    ));
    let items = project_items(mrs, issues);
    assert_eq!(items[0].kind, ItemKind::PullRequest);
    assert_eq!(items[0].number, 2);
    assert_eq!(items[0].author, "dev");
    assert_eq!(items[0].updated_at, items[0].created_at);
    assert_eq!(items[1].kind, ItemKind::Issue);
    assert_eq!(items[1].author, "unknown");
    assert_eq!(items[1].pr_draft, None);
}

#[test]
fn failing_merge_requests_are_told_before_failing_issues() {
    assert!(matches!(
        project_outcome(Err(status(500)), Err(status(404))),
        Err(GitlabHttpError::Status(code)) if code.code() == 500
    ));
    assert!(matches!(
        project_outcome(Ok(Vec::new()), Err(status(404))),
        Err(GitlabHttpError::Status(code)) if code.code() == 404
    ));
    assert!(project_outcome(Ok(Vec::new()), Ok(Vec::new())).is_ok());
}

#[test]
fn project_results_tell_how_the_fetch_ended() {
    let gone = project_result("gitlab.com/a/b", Err(status(404)));
    assert_eq!(gone.repo, "gitlab.com/a/b");
    assert!(matches!(gone.status, RepoStatus::NotFound));
    let refused = project_result("x", Err(status(403)));
    assert!(matches!(
        refused.status,
        RepoStatus::Error(RepoError::Api(ref text)) if text == "http 403 Forbidden"
    ));
    // the digest has room for the outer line only
    let parsing = failed_at(RequestStep::Parsing, "https://x", vec!["expected value".into()]);
    let lost = project_result("x", Err(parsing));
    assert!(matches!(
        lost.status,
        RepoStatus::Error(RepoError::Api(ref text)) if text == "parsing GitLab response from https://x"
    ));
    let found = project_result("x", Ok(Vec::new()));
    assert!(matches!(found.status, RepoStatus::Items(ref items) if items.is_empty()));
}

#[test]
fn pager_follows_the_cursor_and_gathers_the_pages() {
    let mut pager: Pager<u32> = Pager::new();
    assert_eq!(pager.query("state=opened").as_deref(), Some("state=opened&per_page=100"));
    pager.on_page(Page { items: vec![1, 2], next_page: Some("2".into()) });
    assert_eq!(pager.query("state=opened").as_deref(), Some("state=opened&per_page=100&page=2"));
    pager.on_page(Page { items: vec![3], next_page: None });
    assert_eq!(pager.query("state=opened"), None);
    assert_eq!(pager.finish(), vec![1, 2, 3]);
}

#[test]
fn pager_gives_up_on_a_server_that_never_ends() {
    let mut pager: Pager<u32> = Pager::new();
    let mut asked: u32 = 0;
    while pager.query("x").is_some() {
        pager.on_page(Page { items: vec![asked], next_page: Some("again".into()) });
        asked += 1;
    }
    assert_eq!(asked, MAX_PAGES);
    assert_eq!(pager.finish().len(), 20);
}

#[test]
fn build_rejects_non_http_url() {
    assert!(build(
        &GitlabConfig {
            url: "ftp://gitlab.example.org".into(),
            ..Default::default()
        },
        None
    )
    .is_err());
}

#[test]
fn build_strips_trailing_slash_from_api_base() {
    let client = build(
        &GitlabConfig {
            url: "https://gitlab.example.org/".into(),
            ..Default::default()
        },
        None,
    )
    .unwrap();
    assert_eq!(client.base(), "https://gitlab.example.org/api/v4");
    assert_eq!(client.host(), "gitlab.example.org");
}

#[test]
fn build_defaults_to_public_gitlab() {
    let client = build(&GitlabConfig::default(), None).unwrap();
    assert_eq!(client.base(), "https://gitlab.com/api/v4");
    assert_eq!(client.host(), "gitlab.com");
    assert!(!client.has_token());
}

#[test]
fn config_token_is_used_when_env_is_unset() {
    let cfg = GitlabConfig {
        token: Some("  from-config  ".into()),
        ..Default::default()
    };
    assert_eq!(gitlab_token(&cfg, None).as_deref(), Some("from-config"));
}

#[test]
fn blank_token_is_treated_as_absent() {
    let cfg = GitlabConfig {
        token: Some("   ".into()),
        ..Default::default()
    };
    assert!(gitlab_token(&cfg, None).is_none());
}

#[test]
fn environment_token_goes_before_the_configured_one() {
    let cfg = GitlabConfig {
        token: Some("from-config".into()),
        ..Default::default()
    };
    assert_eq!(gitlab_token(&cfg, Some(" from-env ")).as_deref(), Some("from-env"));
    // a blank one counts as absent
    assert_eq!(gitlab_token(&cfg, Some("  ")).as_deref(), Some("from-config"));
}

#[test]
fn bad_addresses_are_told() {
    assert_eq!(host_from_url("https://gitlab.dpe.br:8443/x"), Ok("gitlab.dpe.br".to_owned()));
    let invalid = host_from_url("not a url").unwrap_err();
    assert_eq!(
        invalid,
        UrlError::Invalid { url: "not a url".into(), cause: "invalid uri character".into() }
    );
    assert_eq!(invalid.message(), "gitlab url is not a valid URI: not a url");
    assert_eq!(invalid.chain().message, invalid.message());
    assert_eq!(invalid.chain().causes, vec!["invalid uri character"]);
    let refused = host_from_parts("x", Err("empty string".into())).unwrap_err();
    assert_eq!(refused.chain().causes, vec!["empty string"]);
    let scheme = host_from_url("ftp://x").unwrap_err();
    assert_eq!(
        scheme.message(),
        "gitlab url must start with http:// or https:// (got ftp://x)"
    );
    let bare = host_from_url("gitlab.com").unwrap_err();
    assert_eq!(bare, UrlError::Scheme("gitlab.com".into()));
    assert!(bare.chain().causes.is_empty());
    let nowhere = host_from_parts(
        "https://",
        Ok(UriParts { scheme: Some("https".into()), host: None }),
    )
    .unwrap_err();
    assert_eq!(nowhere.message(), "gitlab url has no host: https://");
}

#[test]
fn requests_carry_address_and_headers() {
    let cfg = GitlabConfig {
        token: Some("secret".into()),
        ..Default::default()
    };
    let client = build(&cfg, None).unwrap();
    assert!(client.has_token());
    let request = client.request("/projects", "page=1");
    assert_eq!(request.url, "https://gitlab.com/api/v4/projects?page=1");
    assert_eq!(
        request.headers,
        vec![
            ("user-agent".to_owned(), "ghpending".to_owned()),
            ("accept".to_owned(), "application/json".to_owned()),
            ("PRIVATE-TOKEN".to_owned(), "secret".to_owned()),
        ]
    );
    let anonymous = build(&GitlabConfig::default(), None).unwrap();
    assert_eq!(anonymous.request("/projects", "").headers.len(), 2);
}

#[test]
fn response_heads_name_the_next_page_or_fail() {
    let ok = HttpStatus::new(200).unwrap();
    assert!(matches!(response_head(ok, Some(" 2 ")), Ok(Some(page)) if page == "2"));
    assert!(matches!(response_head(ok, Some("")), Ok(None)));
    assert!(matches!(response_head(ok, None), Ok(None)));
    let moved = HttpStatus::new(301).unwrap();
    assert!(matches!(
        response_head(moved, Some("2")),
        Err(GitlabHttpError::Status(code)) if code.code() == 301
    ));
}

#[test]
fn failures_without_an_answer_tell_the_step() {
    let told = |step| failed_at(step, "https://x", vec!["why".into()]).message();
    assert_eq!(told(RequestStep::Building), "building GitLab request");
    assert_eq!(told(RequestStep::Waiting), "GitLab request timed out: https://x");
    assert_eq!(told(RequestStep::Requesting), "requesting https://x");
    assert_eq!(told(RequestStep::Reading), "reading https://x");
    assert_eq!(told(RequestStep::Parsing), "parsing GitLab response from https://x");
    assert_eq!(status(502).message(), "http 502 Bad Gateway");
}

#[test]
fn failures_without_an_answer_keep_their_causes() {
    let causes = |step| match failed_at(step, "https://x", vec!["outer".into(), "inner".into()]) {
        GitlabHttpError::Other(chain) => chain.causes,
        GitlabHttpError::Status(code) => panic!("unexpected status: {code:?}"),
    };
    assert_eq!(causes(RequestStep::Building), vec!["outer", "inner"]);
    assert_eq!(causes(RequestStep::Requesting), vec!["outer", "inner"]);
    assert_eq!(causes(RequestStep::Reading), vec!["outer", "inner"]);
    assert_eq!(causes(RequestStep::Parsing), vec!["outer", "inner"]);
    // what took too long is its own cause
    assert!(causes(RequestStep::Waiting).is_empty());
}
