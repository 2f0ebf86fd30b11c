//! What is watched, as `list` and `rm` show it.
use vstd::prelude::*;
use vstd::string::*;

use crate::config::{instance_url, Config, ConfigView};
use crate::gitlab::{label_of, project_label};
use crate::gitlab_client::{host_from_url, instance_host, uri_parts};
use crate::laws::watch::{everything_watched_is_shown, shows_everything};
use crate::text::{opt_str, texts, views};

verus! {

broadcast use {vstd::string::group_string_axioms, vstd::std_specs::hash::group_hash_axioms};

/// What an entry points at. Its label alone does not tell the forge.
#[derive(Debug, PartialEq, Eq)]
pub enum Target {
    Github(String),
    /// The bare path of the project, without the host that the label carries.
    Gitlab(String),
}

/// What a `Target` says.
pub enum TargetView {
    Github(Seq<char>),
    Gitlab(Seq<char>),
}

impl View for Target {
    type V = TargetView;

    open spec fn view(&self) -> TargetView {
        match self {
            Target::Github(repo) => TargetView::Github(repo@),
            Target::Gitlab(project) => TargetView::Gitlab(project@),
        }
    }
}

impl Clone for Target {
    fn clone(&self) -> (res: Self)
        ensures
            res@ == self@,
    {
        match self {
            Target::Github(repo) => Target::Github(repo.clone()),
            Target::Gitlab(project) => Target::Gitlab(project.clone()),
        }
    }
}

/// One thing that is watched.
#[derive(Debug, PartialEq, Eq)]
pub struct WatchEntry {
    pub label: String,
    pub target: Target,
}

/// What a `WatchEntry` says.
pub struct EntryView {
    pub label: Seq<char>,
    pub target: TargetView,
}

impl View for WatchEntry {
    type V = EntryView;

    open spec fn view(&self) -> EntryView {
        EntryView { label: self.label@, target: self.target@ }
    }
}

impl Clone for WatchEntry {
    fn clone(&self) -> (res: Self)
        ensures
            res@ == self@,
    {
        WatchEntry { label: self.label.clone(), target: self.target.clone() }
    }
}

/// The entry of a GitHub repository.
pub open spec fn repo_entry(repo: Seq<char>) -> EntryView {
    EntryView { label: repo, target: TargetView::Github(repo) }
}

/// The entry of a GitLab project at `host`; where there is no host, it goes by its path.
pub open spec fn project_entry(host: Option<Seq<char>>, project: Seq<char>) -> EntryView {
    EntryView {
        label: match host {
            Some(host) => label_of(host, project),
            None => project,
        },
        target: TargetView::Gitlab(project),
    }
}

/// The projects that are watched.
pub open spec fn projects_in(cfg: ConfigView) -> Seq<Seq<char>> {
    match cfg.gitlab {
        Some(gitlab) => gitlab.projects,
        None => Seq::empty(),
    }
}

/// Everything that is watched, GitHub first; `host` is that of the GitLab instance.
pub open spec fn watched(cfg: ConfigView, host: Option<Seq<char>>) -> Seq<EntryView> {
    cfg.repos.map_values(|repo: Seq<char>| repo_entry(repo)) + projects_in(cfg).map_values(
        |project: Seq<char>| project_entry(host, project),
    )
}

/// The host of the configured GitLab instance; none where there is none or its address is bad.
pub open spec fn configured_host(cfg: ConfigView) -> Option<Seq<char>> {
    match cfg.gitlab {
        Some(gitlab) => {
            let url = instance_url(gitlab.url);
            match instance_host(url, uri_parts(url)) {
                Ok(host) => Some(host),
                Err(_) => None,
            }
        },
        None => None,
    }
}

/// Everything that is watched, GitHub first. `host` is that of the GitLab instance; without one,
/// projects go by their paths.
pub fn watch_entries_at(cfg: &Config, host: Option<&str>) -> (res: Vec<WatchEntry>)
    ensures
        views(res@) == watched(cfg@, opt_str(host)),
        shows_everything(cfg@, opt_str(host), views(res@)),
{
    proof {
        everything_watched_is_shown(cfg@, opt_str(host));
    }
    let ghost repos = cfg@.repos.map_values(|repo: Seq<char>| repo_entry(repo));
    let ghost projects = projects_in(cfg@).map_values(
        |project: Seq<char>| project_entry(opt_str(host), project),
    );
    let mut entries: Vec<WatchEntry> = Vec::new();
    let mut i: usize = 0;
    assert(views(entries@) =~= repos.take(0));
    while i < cfg.repos.len()
        invariant
            i <= cfg.repos@.len(),
            repos == cfg@.repos.map_values(|repo: Seq<char>| repo_entry(repo)),
            views(entries@) == repos.take(i as int),
        decreases cfg.repos@.len() - i,
    {
        let ghost had = views(entries@);
        let entry = WatchEntry {
            label: cfg.repos[i].clone(),
            target: Target::Github(cfg.repos[i].clone()),
        };
        entries.push(entry);
        assert(views(entries@) =~= had.push(entry@));
        assert(repos.take(i + 1) =~= repos.take(i as int).push(entry@));
        i = i + 1;
    }
    assert(repos.take(i as int) =~= repos);
    assert(repos + projects.take(0) =~= repos);
    if let Some(gitlab) = &cfg.gitlab {
        let mut j: usize = 0;
        while j < gitlab.projects.len()
            invariant
                j <= gitlab.projects@.len(),
                projects == texts(gitlab.projects@).map_values(
                    |project: Seq<char>| project_entry(opt_str(host), project),
                ),
                views(entries@) == repos + projects.take(j as int),
            decreases gitlab.projects@.len() - j,
        {
            let ghost had = views(entries@);
            let project = &gitlab.projects[j];
            let label = match host {
                Some(host) => project_label(host, project.as_str()),
                None => project.clone(),
            };
            let entry = WatchEntry { label, target: Target::Gitlab(project.clone()) };
            entries.push(entry);
            assert(views(entries@) =~= had.push(entry@));
            assert(projects.take(j + 1) =~= projects.take(j as int).push(entry@));
            j = j + 1;
        }
        assert(projects.take(j as int) =~= projects);
    } else {
        assert(projects =~= Seq::empty());
    }
    entries
}

/// Everything that is watched, GitHub first, labelled as the digest labels it. A bad address of the
/// GitLab instance is no reason to show nothing: projects then go by their paths.
pub fn watch_entries(cfg: &Config) -> (res: Vec<WatchEntry>)
    ensures
        views(res@) == watched(cfg@, configured_host(cfg@)),
        shows_everything(cfg@, configured_host(cfg@), views(res@)),
{
    let host = match &cfg.gitlab {
        Some(gitlab) => match host_from_url(gitlab.effective_url()) {
            Ok(host) => Some(host),
            Err(_) => None,
        },
        None => None,
    };
    match &host {
        Some(host) => watch_entries_at(cfg, Some(host.as_str())),
        None => watch_entries_at(cfg, None),
    }
}

/// Each entry points at what it was made of: the watched repositories in their order, behind them
/// the watched projects by their bare paths, whatever the labels are.
pub proof fn entries_point_at_what_is_watched(cfg: ConfigView, host: Option<Seq<char>>)
    ensures
        watched(cfg, host).len() == cfg.repos.len() + projects_in(cfg).len(),
        forall|i: int|
            0 <= i < cfg.repos.len() ==> (#[trigger] watched(cfg, host)[i]).target
                == TargetView::Github(cfg.repos[i]) && watched(cfg, host)[i].label == cfg.repos[i],
        forall|i: int|
            cfg.repos.len() <= i < watched(cfg, host).len() ==> (#[trigger] watched(
                cfg,
                host,
            )[i]).target == TargetView::Gitlab(projects_in(cfg)[i - cfg.repos.len()]),
{
}

/// The lines that `list` prints.
pub open spec fn listing(entries: Seq<EntryView>) -> Seq<Seq<char>> {
    if entries.len() == 0 {
        seq!["No repos tracked. Run `ghpending add` to get started."@]
    } else {
        entries.map_values(|entry: EntryView| entry.label)
    }
}

/// The lines that `list` prints: the labels, or where to start.
pub fn list_lines(entries: &Vec<WatchEntry>) -> (res: Vec<String>)
    ensures
        texts(res@) == listing(views(entries@)),
{
    let mut lines: Vec<String> = Vec::new();
    if entries.len() == 0 {
        lines.push("No repos tracked. Run `ghpending add` to get started.".to_owned());
        assert(texts(lines@) =~= listing(views(entries@)));
        return lines;
    }
    let mut i: usize = 0;
    while i < entries.len()
        invariant
            i <= entries@.len(),
            lines@.len() == i,
            forall|k: int| 0 <= k < i ==> (#[trigger] lines@[k])@ == entries@[k].label@,
        decreases entries@.len() - i,
    {
        lines.push(entries[i].label.clone());
        i = i + 1;
    }
    assert(texts(lines@) =~= listing(views(entries@)));
    lines
}

} // verus!
