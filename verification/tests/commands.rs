use ghpending::commands::add::{
    adopt_checked_instance, adopt_instance, adopt_user, github_listed, github_picked, github_start,
    github_user_typed, gitlab_checked_instance_typed, gitlab_instance_typed, gitlab_listed,
    gitlab_picked, gitlab_start, group_selection, no_projects_found, no_repos_found, preselected,
    provider_from_flags, resolve_user, track_projects, track_repos, GithubStep, GitlabStep,
    GroupChoice, InstanceError, Provider, UserChoice,
};
use ghpending::commands::check_flags;
use ghpending::commands::digest::{
    all_repo_fetches_failed, arrange, digest_start, fetch_tasks, mark_and_order_items,
    merge_fork_cache, remember_forks, repos_to_fetch, resolve_viewer, task_labels, use_graphql,
    DigestStep, FetchTask,
};
use ghpending::commands::list::{list_lines, watch_entries, watch_entries_at, Target, WatchEntry};
use ghpending::commands::remove::{apply_removals, partition_removals, removal_report};
use ghpending::config::{Config, GitlabConfig};
use ghpending::github::{ForkCache, ListSource};
use ghpending::gitlab_client::UrlError;
use ghpending::model::{ItemKind, RepoError, RepoItem, RepoResult, RepoStatus, Timestamp};
use ghpending::sort::SortMode;

fn item(number: u64, author: &str) -> RepoItem {
    RepoItem {
        kind: ItemKind::Issue,
        number,
        title: format!("item {number}"),
        created_at: Timestamp { secs: 0, nanos: 0 },
        updated_at: Timestamp { secs: 0, nanos: 0 },
        author: author.into(),
        pr_draft: None,
        comments: None,
        review_decision: None,
        mine: false,
    }
}

fn entry(label: &str, target: Target) -> WatchEntry {
    WatchEntry {
        label: label.into(),
        target,
    }
}

fn fresh_cache() -> ForkCache {
    let mut fresh = ForkCache::new();
    fresh.insert("b/opted-out".into(), String::new());
    fresh.insert("c/new-fork".into(), "up/c".into());
    fresh
}

fn watching() -> Config {
    Config {
        repos: vec!["owner/repo".into(), "foo/bar".into()],
        gitlab: Some(GitlabConfig {
            url: "https://gitlab.example.org".into(),
            projects: vec!["grupo/backend".into(), "grupo/infra".into()],
            ..Default::default()
        }),
        ..Default::default()
    }
}

#[test]
fn flag_overrides_saved_user() {
    let choice = resolve_user(Some("octocat".into()), Some("akitaonrails".into()));
    assert_eq!(choice, UserChoice::Override("octocat".into()));
}

#[test]
fn flag_is_trimmed() {
    let choice = resolve_user(Some("  octocat  ".into()), None);
    assert_eq!(choice, UserChoice::Override("octocat".into()));
}

#[test]
fn blank_flag_is_rejected_over_saved_user() {
    let choice = resolve_user(Some("   ".into()), Some("akitaonrails".into()));
    assert_eq!(choice, UserChoice::Blank);
}

#[test]
fn falls_back_to_saved_user_without_flag() {
    let choice = resolve_user(None, Some("akitaonrails".into()));
    assert_eq!(choice, UserChoice::Saved("akitaonrails".into()));
}

#[test]
fn prompts_when_nothing_supplied_or_saved() {
    assert_eq!(resolve_user(None, None), UserChoice::Prompt);
}

#[test]
fn github_only_flags_skip_the_provider_picker() {
    assert_eq!(
        provider_from_flags(Some("octocat"), false),
        Some(Provider::Github)
    );
    assert_eq!(provider_from_flags(None, true), Some(Provider::Github));
}

#[test]
fn bare_add_asks_which_provider() {
    assert_eq!(provider_from_flags(None, false), None);
}

#[test]
fn blank_group_lists_everything_you_belong_to() {
    assert_eq!(group_selection(""), GroupChoice::Membership);
    assert_eq!(group_selection("   "), GroupChoice::Membership);
}

#[test]
fn group_input_is_trimmed() {
    assert_eq!(
        group_selection("  defensoria/solar  "),
        GroupChoice::Group("defensoria/solar".into())
    );
}

#[test]
fn mark_and_order_items_puts_others_above_mine_stably_and_skips_forks() {
    let mut results = vec![
        RepoResult::new(
            "a/b".into(),
            RepoStatus::Items(vec![
                item(1, "viewer"),
                item(2, "alice"),
                item(3, "viewer"),
                item(4, "bob"),
            ]),
        ),
        RepoResult::new(
            "fork/repo".into(),
            RepoStatus::Items(vec![item(5, "viewer")]),
        )
        .with_upstream("upstream/repo".into()),
    ];

    mark_and_order_items(&mut results, Some("viewer"));

    let RepoStatus::Items(items) = &results[0].status else {
        panic!("expected items")
    };
    let numbers: Vec<u64> = items.iter().map(|i| i.number).collect();
    // Others keep their relative order above the viewer's own, which keep theirs.
    assert_eq!(numbers, vec![2, 4, 1, 3]);
    assert!(!items[0].mine);
    assert!(!items[1].mine);
    assert!(items[2].mine);
    assert!(items[3].mine);

    // The fork is left alone though its item's author is the viewer.
    let RepoStatus::Items(fork_items) = &results[1].status else {
        panic!("expected items")
    };
    assert_eq!(fork_items[0].number, 5);
    assert!(!fork_items[0].mine);
}

#[test]
fn mark_and_order_items_with_no_viewer_marks_nothing_mine() {
    let mut results = vec![RepoResult::new(
        "a/b".into(),
        RepoStatus::Items(vec![item(1, "alice"), item(2, "bob")]),
    )];

    mark_and_order_items(&mut results, None);

    let RepoStatus::Items(items) = &results[0].status else {
        panic!("expected items")
    };
    assert!(items.iter().all(|i| !i.mine));
}

#[test]
fn viewer_is_known_whatever_the_case() {
    let mut results = vec![
        RepoResult::new("a/b".into(), RepoStatus::Items(vec![item(1, "Viewer")])),
        RepoResult::new("c/d".into(), RepoStatus::NotFound),
    ];
    mark_and_order_items(&mut results, Some("vIEWER"));
    let RepoStatus::Items(items) = &results[0].status else {
        panic!("expected items")
    };
    assert!(items[0].mine);
    assert!(matches!(results[1].status, RepoStatus::NotFound));
}

#[test]
fn use_graphql_requires_a_token() {
    assert!(use_graphql(true));
    assert!(!use_graphql(false));
}

#[test]
fn all_repo_fetches_failed_requires_every_result_to_be_error() {
    assert!(all_repo_fetches_failed(&[
        RepoResult::new("a/b".into(), RepoStatus::Error(RepoError::Timeout)),
        RepoResult::new(
            "c/d".into(),
            RepoStatus::Error(RepoError::Api("boom".into()))
        ),
    ]));

    assert!(!all_repo_fetches_failed(&[RepoResult::new(
        "a/b".into(),
        RepoStatus::NotFound
    )]));

    assert!(!all_repo_fetches_failed(&[RepoResult::new(
        "a/b".into(),
        RepoStatus::Items(vec![])
    )]));

    assert!(!all_repo_fetches_failed(&[]));
}

#[test]
fn merge_fork_cache_preserves_existing_and_detects_no_change() {
    let mut existing = ForkCache::new();
    existing.insert("a/errored-this-run".into(), "up/a".into());
    existing.insert("b/opted-out".into(), String::new());

    let merged = merge_fork_cache(&existing, fresh_cache()).expect("changed");
    assert_eq!(merged.get("a/errored-this-run").unwrap(), "up/a");
    assert_eq!(merged.get("b/opted-out").unwrap(), "");
    assert_eq!(merged.get("c/new-fork").unwrap(), "up/c");

    assert!(merge_fork_cache(&merged, fresh_cache()).is_none());
    assert!(merge_fork_cache(&existing, ForkCache::new()).is_none());
}

#[test]
fn remembered_forks_leave_the_watched_repos_alone() {
    let mut cfg = watching();
    assert_eq!(repos_to_fetch(&cfg, Some("x/y")), vec!["x/y"]);
    assert_eq!(repos_to_fetch(&cfg, Some(" , ")), vec!["owner/repo", "foo/bar"]);
    assert_eq!(repos_to_fetch(&cfg, None), vec!["owner/repo", "foo/bar"]);
    assert!(remember_forks(&mut cfg, fresh_cache()));
    assert_eq!(cfg.repos, vec!["owner/repo", "foo/bar"]);
    assert_eq!(cfg.forks.get("c/new-fork").map(String::as_str), Some("up/c"));
    assert!(!remember_forks(&mut cfg, fresh_cache()));
}

#[test]
fn tasks_follow_the_order_of_the_configuration() {
    let tasks = fetch_tasks(
        &vec!["a/b".to_owned()],
        &vec!["/g/p/".to_owned()],
        "gitlab.com",
    );
    assert_eq!(
        tasks,
        vec![
            FetchTask::Github("a/b".into()),
            FetchTask::Gitlab { path: "/g/p/".into(), label: "gitlab.com/g/p".into() },
        ]
    );
    assert_eq!(task_labels(&tasks), vec!["a/b", "gitlab.com/g/p"]);
}

#[test]
fn viewer_is_the_login_of_the_token_or_the_configured_user() {
    let cfg = Config { user: Some("saved".into()), ..Default::default() };
    assert_eq!(resolve_viewer(true, Some("me".into()), &cfg).as_deref(), Some("me"));
    assert_eq!(resolve_viewer(true, None, &cfg).as_deref(), Some("saved"));
    assert_eq!(resolve_viewer(false, Some("me".into()), &cfg).as_deref(), Some("saved"));
}

#[test]
fn lists_github_repos_first_then_gitlab_projects() {
    let cfg = Config {
        repos: vec!["owner/repo".into()],
        gitlab: Some(GitlabConfig {
            url: "https://gitlab.dpe.br".into(),
            projects: vec!["nucleo-ti/portal".into()],
            ..Default::default()
        }),
        ..Default::default()
    };

    let entries = watch_entries(&cfg);

    assert_eq!(entries.len(), 2);
    assert_eq!(entries[0].label, "owner/repo");
    assert_eq!(entries[0].target, Target::Github("owner/repo".into()));
    assert_eq!(entries[1].label, "gitlab.dpe.br/nucleo-ti/portal");
    // The target keeps the bare path, not the labeled form.
    assert_eq!(entries[1].target, Target::Gitlab("nucleo-ti/portal".into()));
}

#[test]
fn gitlab_projects_default_to_the_public_host_label() {
    let cfg = Config {
        gitlab: Some(GitlabConfig {
            projects: vec!["group/app".into()],
            ..Default::default()
        }),
        ..Default::default()
    };
    assert_eq!(watch_entries(&cfg)[0].label, "gitlab.com/group/app");
}

#[test]
fn malformed_gitlab_url_falls_back_to_the_bare_path() {
    let cfg = Config {
        gitlab: Some(GitlabConfig {
            url: "not a url".into(),
            projects: vec!["group/app".into()],
            ..Default::default()
        }),
        ..Default::default()
    };
    assert_eq!(watch_entries(&cfg)[0].label, "group/app");
}

#[test]
fn no_tracked_entries_when_config_is_empty() {
    assert!(watch_entries(&Config::default()).is_empty());
}

#[test]
fn list_prints_labels_or_where_to_start() {
    let entries = watch_entries_at(&watching(), Some("h"));
    assert_eq!(
        list_lines(&entries),
        vec!["owner/repo", "foo/bar", "h/grupo/backend", "h/grupo/infra"]
    );
    assert_eq!(
        list_lines(&Vec::new()),
        vec!["No repos tracked. Run `ghpending add` to get started."]
    );
}

#[test]
fn splits_selection_by_provider() {
    let selected = vec![
        entry("owner/repo", Target::Github("owner/repo".into())),
        entry(
            "gitlab.dpe.br/nucleo-ti/portal",
            Target::Gitlab("nucleo-ti/portal".into()),
        ),
    ];

    let (github, gitlab) = partition_removals(&selected);

    assert_eq!(github, vec!["owner/repo"]);
    // The bare path is what gets removed, not the label.
    assert_eq!(gitlab, vec!["nucleo-ti/portal"]);
}

#[test]
fn removing_a_gitlab_project_leaves_github_repos_alone() {
    let mut cfg = Config {
        repos: vec!["owner/repo".into(), "foo/bar".into()],
        gitlab: Some(GitlabConfig {
            url: "https://gitlab.dpe.br".into(),
            projects: vec!["nucleo-ti/portal".into(), "grupo/app".into()],
            ..Default::default()
        }),
        ..Default::default()
    };

    let selected = vec![entry(
        "gitlab.dpe.br/grupo/app",
        Target::Gitlab("grupo/app".into()),
    )];
    apply_removals(&mut cfg, &selected);

    assert_eq!(cfg.repos, vec!["owner/repo", "foo/bar"]);
    assert_eq!(cfg.gitlab.unwrap().projects, vec!["nucleo-ti/portal"]);
}

#[test]
fn empty_selection_removes_nothing() {
    let (github, gitlab) = partition_removals(&[]);
    assert!(github.is_empty());
    assert!(gitlab.is_empty());
    let mut cfg = watching();
    apply_removals(&mut cfg, &Vec::new());
    assert_eq!(cfg.repos.len(), 2);
    assert_eq!(cfg.gitlab.unwrap().projects.len(), 2);
}

#[test]
fn rm_removes_only_the_selected_gitlab_project() {
    let mut cfg = watching();
    let picked = watch_entries(&cfg).remove(2);
    let selected = vec![picked];
    apply_removals(&mut cfg, &selected);
    assert_eq!(removal_report(selected.len()), "Removed 1 repo(s).");
    assert_eq!(cfg.repos, vec!["owner/repo", "foo/bar"]);
    assert_eq!(cfg.gitlab.unwrap().projects, vec!["grupo/infra"]);
}

#[test]
fn rm_removes_a_github_repo_without_touching_gitlab() {
    let mut cfg = Config {
        repos: vec!["owner/repo".into()],
        gitlab: Some(GitlabConfig {
            url: "https://gitlab.example.org".into(),
            projects: vec!["grupo/backend".into()],
            ..Default::default()
        }),
        ..Default::default()
    };
    let selected = vec![watch_entries(&cfg).remove(0)];
    apply_removals(&mut cfg, &selected);
    assert_eq!(removal_report(selected.len()), "Removed 1 repo(s).");
    assert!(cfg.repos.is_empty());
    assert_eq!(cfg.gitlab.unwrap().projects, vec!["grupo/backend"]);
    assert_eq!(removal_report(0), "Nothing removed.");
}

#[test]
fn add_gitlab_bootstraps_the_section_and_tracks_a_picked_project() {
    let mut cfg = Config::default();
    assert!(matches!(gitlab_start(&cfg), GitlabStep::AskInstance));
    let step = gitlab_instance_typed(&mut cfg, " http://127.0.0.1:4321 ");
    assert!(matches!(step, GitlabStep::AskGroup { remembered: None, save: true }));
    assert_eq!(group_selection(""), GroupChoice::Membership);
    let found = vec!["grupo/backend".to_owned(), "grupo/infra".to_owned()];
    let GitlabStep::Pick { found, picked } = gitlab_listed(&cfg, found, false) else {
        panic!("expected a choice")
    };
    assert!(picked.is_empty());
    let GitlabStep::Done { message, save } = gitlab_picked(&mut cfg, &vec![found[0].clone()], None)
    else {
        panic!("expected the end")
    };
    assert!(save);
    assert_eq!(message, "Saved. Tracking 1 GitLab project(s) total.");
    let section = cfg.gitlab.unwrap();
    assert_eq!(section.url, "http://127.0.0.1:4321");
    assert_eq!(section.projects, vec!["grupo/backend"]);
}

#[test]
fn add_gitlab_remembers_the_group_for_next_time() {
    let mut cfg = Config::default();
    gitlab_instance_typed(&mut cfg, "http://127.0.0.1:4321");
    let GroupChoice::Group(group) = group_selection("defensoria") else {
        panic!("expected a group")
    };
    gitlab_picked(&mut cfg, &vec!["defensoria/solar/backend".to_owned()], Some(group));
    // the instance is settled: it is not asked for again
    assert!(matches!(
        gitlab_start(&cfg),
        GitlabStep::AskGroup { remembered: Some(group), save: false } if group == "defensoria"
    ));
    assert_eq!(cfg.gitlab.unwrap().group.as_deref(), Some("defensoria"));
}

#[test]
fn add_gitlab_keeps_the_url_when_the_listing_comes_back_empty() {
    let mut cfg = Config::default();
    gitlab_instance_typed(&mut cfg, "http://127.0.0.1:4321");
    let GitlabStep::Done { message, save } = gitlab_listed(&cfg, vec![], false) else {
        panic!("expected the end")
    };
    assert!(!save);
    assert!(message.contains("Set GITLAB_TOKEN"));
    assert_eq!(no_projects_found(true), "No GitLab projects found.");
    assert_eq!(cfg.gitlab.unwrap().url, "http://127.0.0.1:4321");
}

#[test]
fn refused_instances_end_adding() {
    let mut cfg = Config::default();
    assert!(matches!(
        gitlab_instance_typed(&mut cfg, " "),
        GitlabStep::Refuse(e) if e.message == "GitLab URL cannot be empty" && e.causes.is_empty()
    ));
    let unknown = Err(UrlError::NoHost("https://".into()));
    assert!(matches!(
        gitlab_checked_instance_typed(&mut cfg, "https://", unknown),
        GitlabStep::Refuse(e) if e.message == "gitlab url has no host: https://"
    ));
    let GitlabStep::Refuse(refused) = gitlab_instance_typed(&mut cfg, "not a url") else {
        panic!("expected a refusal")
    };
    assert_eq!(refused.message, "gitlab url is not a valid URI: not a url");
    assert_eq!(refused.causes, vec!["invalid uri character"]);
    assert!(cfg.gitlab.is_none());
}

#[test]
fn github_steps_settle_the_account_first() {
    let mut cfg = Config { user: Some("saved".into()), ..Default::default() };
    assert!(matches!(
        github_start(&mut cfg, Some("x".into()), true),
        GithubStep::List(ListSource::Authenticated)
    ));
    assert_eq!(cfg.user.as_deref(), Some("saved"));
    assert!(matches!(
        github_start(&mut cfg, None, false),
        GithubStep::Resolve { username, save: false } if username == "saved"
    ));
    assert!(matches!(
        github_start(&mut cfg, Some("  ".into()), false),
        GithubStep::Refuse(text) if text == "--user cannot be empty"
    ));
    assert!(matches!(
        github_start(&mut cfg, Some(" acme ".into()), false),
        GithubStep::Resolve { username, save: true } if username == "acme"
    ));
    assert_eq!(cfg.user.as_deref(), Some("acme"));
    let mut fresh = Config::default();
    assert!(matches!(github_start(&mut fresh, None, false), GithubStep::AskUser));
    assert!(matches!(
        github_user_typed(&mut fresh, " me "),
        GithubStep::Resolve { username, save: true } if username == "me"
    ));
    assert_eq!(fresh.user.as_deref(), Some("me"));
}

#[test]
fn github_steps_end_with_the_watched_repos() {
    let mut cfg = Config { repos: vec!["b/b".into()], ..Default::default() };
    assert!(matches!(
        github_listed(&cfg, vec![], true),
        GithubStep::Done { message, save: false } if message == "No repos found for your account."
    ));
    let found = vec!["a/a".to_owned(), "b/b".to_owned()];
    let GithubStep::Pick { found, picked } = github_listed(&cfg, found, false) else {
        panic!("expected a choice")
    };
    assert_eq!(picked, vec![1]);
    assert!(matches!(
        github_picked(&mut cfg, &found),
        GithubStep::Done { message, save: true } if message == "Saved. Tracking 2 repo(s) total."
    ));
    assert_eq!(cfg.repos, vec!["a/a", "b/b"]);
}

#[test]
fn digest_with_nothing_to_fetch_says_where_to_start() {
    assert!(matches!(
        digest_start(&Config::default(), None),
        DigestStep::Nothing(text)
            if text == "No repos tracked. Run `ghpending add` to get started."
    ));
    assert!(matches!(
        digest_start(&Config::default(), Some("a/b")),
        DigestStep::Fetch(repos) if repos == vec!["a/b"]
    ));
    // projects alone make a digest
    let cfg = Config {
        gitlab: Some(GitlabConfig { projects: vec!["g/p".into()], ..Default::default() }),
        ..Default::default()
    };
    assert!(matches!(digest_start(&cfg, None), DigestStep::Fetch(repos) if repos.is_empty()));
}

#[test]
fn arranging_marks_then_sorts() {
    let mut results = vec![
        RepoResult::new("c/d".into(), RepoStatus::NotFound),
        RepoResult::new(
            "a/b".into(),
            RepoStatus::Items(vec![item(1, "me"), item(2, "bob")]),
        ),
    ];
    assert!(!arrange(&mut results, Some("me"), SortMode::Name));
    assert_eq!(results[0].repo, "a/b");
    let RepoStatus::Items(items) = &results[0].status else {
        panic!("expected items")
    };
    assert_eq!(items[0].number, 2);
    assert!(items[1].mine);
    let mut failed = vec![RepoResult::new("a/b".into(), RepoStatus::Error(RepoError::Timeout))];
    assert!(arrange(&mut failed, None, SortMode::Activity));
}

#[test]
fn bad_instances_change_nothing() {
    let mut cfg = Config::default();
    let empty = adopt_instance(&mut cfg, "   ").unwrap_err();
    assert_eq!(empty, InstanceError::Empty);
    assert_eq!(empty.message(), "GitLab URL cannot be empty");
    let bad = adopt_instance(&mut cfg, "ftp://x").unwrap_err();
    assert_eq!(bad, InstanceError::Url(UrlError::Scheme("ftp://x".into())));
    assert_eq!(
        bad.message(),
        "gitlab url must start with http:// or https:// (got ftp://x)"
    );
    assert!(cfg.gitlab.is_none());
    assert!(adopt_checked_instance(&mut cfg, " https://x ", Ok("x".into())).is_ok());
    let told = track_projects(&mut cfg, &vec!["g/p".to_owned()], None);
    assert_eq!(told, "Saved. Tracking 1 GitLab project(s) total.");
    assert_eq!(cfg.gitlab.unwrap().url, "https://x");
}

#[test]
fn watched_repos_are_picked_to_begin_with() {
    let found = vec!["a/a".to_owned(), "b/b".to_owned(), "c/c".to_owned()];
    let known = vec!["c/c".to_owned(), "a/a".to_owned(), "x/x".to_owned()];
    assert_eq!(preselected(&found, &known), vec![0, 2]);
}

#[test]
fn picked_repos_join_the_watched_in_order() {
    let mut cfg = Config { repos: vec!["m/m".into(), "b/b".into()], ..Default::default() };
    let told = track_repos(&mut cfg, &vec!["a/a".to_owned(), "b/b".to_owned()]);
    assert_eq!(cfg.repos, vec!["a/a", "b/b", "m/m"]);
    assert_eq!(told, "Saved. Tracking 3 repo(s) total.");
    // once more changes nothing
    track_repos(&mut cfg, &vec!["a/a".to_owned(), "b/b".to_owned()]);
    assert_eq!(cfg.repos, vec!["a/a", "b/b", "m/m"]);
}

#[test]
fn typed_user_is_adopted() {
    let mut cfg = Config::default();
    assert_eq!(adopt_user(&mut cfg, " octocat "), "octocat");
    assert_eq!(cfg.user.as_deref(), Some("octocat"));
    assert_eq!(no_repos_found(true), "No repos found for your account.");
    assert_eq!(no_repos_found(false), "No repos found.");
    assert_eq!(Provider::Github.name(), "GitHub");
    assert_eq!(Provider::Gitlab.name(), "GitLab");
}

#[test]
fn digest_flags_are_refused_beside_a_command() {
    assert_eq!(check_flags(true, true, true, false), Ok(()));
    assert_eq!(check_flags(false, false, false, true), Ok(()));
    assert_eq!(
        check_flags(true, true, true, true),
        Err("--limit can only be used when rendering the digest")
    );
    assert_eq!(
        check_flags(false, true, true, true),
        Err("--subscribed can only be used when rendering the digest")
    );
    assert_eq!(
        check_flags(false, false, true, true),
        Err("--sort can only be used when rendering the digest")
    );
}
