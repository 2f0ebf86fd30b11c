use ghpending::config::{repos_override_from_env, Config, GitlabConfig, DEFAULT_GITLAB_URL};

#[test]
fn repos_override_from_env_absent() {
    assert_eq!(repos_override_from_env(None), None);
}

#[test]
fn repos_override_from_env_parses_csv() {
    assert_eq!(
        repos_override_from_env(Some("a/b,c/d")),
        Some(vec!["a/b".to_owned(), "c/d".to_owned()])
    );
}

#[test]
fn repos_override_from_env_trims_and_drops_blanks() {
    assert_eq!(
        repos_override_from_env(Some(" a/b , , c/d ,")),
        Some(vec!["a/b".to_owned(), "c/d".to_owned()])
    );
}

#[test]
fn repos_override_from_env_all_blank_is_none() {
    assert_eq!(repos_override_from_env(Some(" , , ")), None);
}

#[test]
fn default_config_watches_nothing() {
    let cfg = Config::default();
    assert!(cfg.user.is_none());
    assert!(cfg.repos.is_empty());
    assert!(cfg.theme.is_none());
    assert!(cfg.sort.is_none());
    assert!(cfg.forks.is_empty());
    assert!(cfg.gitlab.is_none());
}

#[test]
fn blank_url_means_the_public_instance() {
    assert_eq!(GitlabConfig::default().effective_url(), DEFAULT_GITLAB_URL);
    let blank = GitlabConfig { url: "  ".into(), ..Default::default() };
    assert_eq!(blank.effective_url(), "https://gitlab.com");
    let own = GitlabConfig { url: " https://gitlab.dpe.br ".into(), ..Default::default() };
    assert_eq!(own.effective_url(), "https://gitlab.dpe.br");
}

#[test]
fn cloned_section_says_the_same() {
    let section = GitlabConfig {
        url: "https://x".into(),
        token: Some("t".into()),
        group: Some("g".into()),
        projects: vec!["a/b".into()],
    };
    let copy = section.clone();
    assert_eq!(copy.url, "https://x");
    assert_eq!(copy.token.as_deref(), Some("t"));
    assert_eq!(copy.group.as_deref(), Some("g"));
    assert_eq!(copy.projects, vec!["a/b"]);
}

#[test]
fn cloned_config_says_the_same() {
    let mut cfg = Config {
        user: Some("u".into()),
        repos: vec!["a/b".into()],
        theme: Some("t".into()),
        sort: Some("name".into()),
        gitlab: Some(GitlabConfig::default()),
        ..Default::default()
    };
    cfg.forks.insert("a/b".into(), "up/b".into());
    cfg.forks.insert("c/d".into(), String::new());
    let copy = cfg.clone();
    assert_eq!(copy.user.as_deref(), Some("u"));
    assert_eq!(copy.repos, vec!["a/b"]);
    assert_eq!(copy.theme.as_deref(), Some("t"));
    assert_eq!(copy.sort.as_deref(), Some("name"));
    assert_eq!(copy.forks.get("a/b").map(String::as_str), Some("up/b"));
    assert_eq!(copy.forks.get("c/d").map(String::as_str), Some(""));
    assert!(copy.gitlab.is_some());
}
