//! Beginning to watch.
use vstd::prelude::*;
use vstd::string::*;

use crate::config::{copy_names, copy_option, Config, ConfigView, GitlabConfig, GitlabView};
use crate::github::{ListSource, SourceView};
use crate::gitlab_client::{
    alone, host_from_url, instance_host, uri_parts, url_chain, ChainView, ErrorChain, UrlError,
    UrlErrorView,
};
use crate::laws::watch::{
    kept_and_added, picked_projects_are_watched_too, picked_repos_are_watched_too, projects_added,
    same_but_for_repos,
};
use crate::order::{
    in_text_order, sort_names, sorted, stable_sort_permutes, stable_sort_sorts, text_order,
    text_order_is_strict_weak,
};
use crate::text::{decimal, decimal_of, opt_text, same, texts, trim, trimmed};

verus! {

broadcast use {vstd::string::group_string_axioms, vstd::std_specs::hash::group_hash_axioms};

/// How long the API may take to answer.
pub const API_TIMEOUT_SECS: u64 = 30;

/// The forge to add from.
#[derive(Debug, Clone, Copy, PartialEq, Eq, Structural)]
pub enum Provider {
    Github,
    Gitlab,
}

/// The name of a forge that the user sees.
pub open spec fn provider_name(provider: Provider) -> Seq<char> {
    match provider {
        Provider::Github => "GitHub"@,
        Provider::Gitlab => "GitLab"@,
    }
}

impl Provider {
    /// The name that the user sees.
    pub fn name(&self) -> (res: &'static str)
        ensures
            res@ == provider_name(*self),
    {
        match self {
            Provider::Github => "GitHub",
            Provider::Gitlab => "GitLab",
        }
    }
}

/// The forge that the flags settle, where `user` and `all` say which of them were given.
pub open spec fn flagged_provider(user: bool, all: bool) -> Option<Provider> {
    if all || user {
        Some(Provider::Github)
    } else {
        None
    }
}

/// The forge that the flags settle: `--user` and `--all` concern GitHub alone. None where the user
/// is to be asked.
pub fn provider_from_flags(user: Option<&str>, all: bool) -> (res: Option<Provider>)
    ensures
        res == flagged_provider(user is Some, all),
{
    if all || user.is_some() {
        Some(Provider::Github)
    } else {
        None
    }
}

/// Where GitLab projects are listed from.
#[derive(Debug, PartialEq, Eq)]
pub enum GroupChoice {
    /// Everything that the user is a member of.
    Membership,
    Group(String),
}

/// What a `GroupChoice` says.
pub enum GroupView {
    Membership,
    Group(Seq<char>),
}

impl View for GroupChoice {
    type V = GroupView;

    open spec fn view(&self) -> GroupView {
        match self {
            GroupChoice::Membership => GroupView::Membership,
            GroupChoice::Group(group) => GroupView::Group(group@),
        }
    }
}

/// Where projects are listed from, for what was typed.
pub open spec fn chosen_group(input: Seq<char>) -> GroupView {
    if trimmed(input).len() == 0 {
        GroupView::Membership
    } else {
        GroupView::Group(trimmed(input))
    }
}

/// Where projects are listed from, for what was typed.
pub fn group_selection(input: &str) -> (res: GroupChoice)
    ensures
        res@ == chosen_group(input@),
{
    let input = trim(input);
    if input.is_empty() {
        GroupChoice::Membership
    } else {
        GroupChoice::Group(input.to_owned())
    }
}

/// The account that GitHub repositories are listed from.
#[derive(Debug, PartialEq, Eq)]
pub enum UserChoice {
    /// The one that the flag names, from now on.
    Override(String),
    /// The one that is configured.
    Saved(String),
    /// The user is to be asked.
    Prompt,
    /// The flag names none.
    Blank,
}

/// What a `UserChoice` says.
pub enum UserView {
    Override(Seq<char>),
    Saved(Seq<char>),
    Prompt,
    Blank,
}

impl View for UserChoice {
    type V = UserView;

    open spec fn view(&self) -> UserView {
        match self {
            UserChoice::Override(user) => UserView::Override(user@),
            UserChoice::Saved(user) => UserView::Saved(user@),
            UserChoice::Prompt => UserView::Prompt,
            UserChoice::Blank => UserView::Blank,
        }
    }
}

/// The account that the flag and the configuration settle.
pub open spec fn settled_user(flag: Option<Seq<char>>, saved: Option<Seq<char>>) -> UserView {
    match flag {
        Some(flag) => if trimmed(flag).len() == 0 {
            UserView::Blank
        } else {
            UserView::Override(trimmed(flag))
        },
        None => match saved {
            Some(saved) => UserView::Saved(saved),
            None => UserView::Prompt,
        },
    }
}

/// The account that the flag and the configuration settle.
pub fn resolve_user(flag: Option<String>, saved: Option<String>) -> (res: UserChoice)
    ensures
        res@ == settled_user(opt_text(flag), opt_text(saved)),
{
    match flag {
        Some(flag) => {
            let user = trim(flag.as_str());
            if user.is_empty() {
                UserChoice::Blank
            } else {
                UserChoice::Override(user.to_owned())
            }
        },
        None => match saved {
            Some(saved) => UserChoice::Saved(saved),
            None => UserChoice::Prompt,
        },
    }
}

/// Makes the account that was named or typed the configured one. The result is its name.
pub fn adopt_user(cfg: &mut Config, typed: &str) -> (res: String)
    ensures
        res@ == trimmed(typed@),
        final(cfg)@ == (ConfigView { user: Some(trimmed(typed@)), ..old(cfg)@ }),
{
    let user = trim(typed).to_owned();
    cfg.user = Some(user.clone());
    user
}

/// The positions in `found` of what is watched already.
pub open spec fn watched_positions(found: Seq<Seq<char>>, known: Seq<Seq<char>>) -> Seq<usize>
    decreases found.len(),
{
    if found.len() == 0 {
        Seq::empty()
    } else {
        let head = watched_positions(found.drop_last(), known);
        if known.contains(found.last()) {
            head.push((found.len() - 1) as usize)
        } else {
            head
        }
    }
}

fn holds(names: &Vec<String>, name: &str) -> (res: bool)
    ensures
        res == texts(names@).contains(name@),
{
    let mut i: usize = 0;
    while i < names.len()
        invariant
            i <= names@.len(),
            forall|k: int| 0 <= k < i ==> (#[trigger] names@[k])@ != name@,
        decreases names@.len() - i,
    {
        if same(names[i].as_str(), name) {
            assert(texts(names@)[i as int] == name@);
            return true;
        }
        i = i + 1;
    }
    assert forall|k: int| 0 <= k < texts(names@).len() implies #[trigger] texts(names@)[k]
        != name@ by {
        assert(names@[k]@ != name@);
    }
    false
}

/// The positions in `found` of what is watched already: they are picked to begin with.
pub fn preselected(found: &Vec<String>, known: &Vec<String>) -> (res: Vec<usize>)
    ensures
        res@ == watched_positions(texts(found@), texts(known@)),
{
    let ghost all = texts(found@);
    let mut res: Vec<usize> = Vec::new();
    let mut i: usize = 0;
    assert(all.take(0) =~= Seq::empty());
    while i < found.len()
        invariant
            i <= found@.len(),
            all == texts(found@),
            res@ == watched_positions(all.take(i as int), texts(known@)),
        decreases found@.len() - i,
    {
        assert(all.take(i + 1).drop_last() =~= all.take(i as int));
        assert(all.take(i + 1).last() == found@[i as int]@);
        if holds(known, found[i].as_str()) {
            res.push(i);
        }
        i = i + 1;
    }
    assert(all.take(i as int) =~= all);
    res
}

/// What is watched once `selected` were picked: each that is new behind the others.
pub open spec fn joined(known: Seq<Seq<char>>, selected: Seq<Seq<char>>) -> Seq<Seq<char>>
    decreases selected.len(),
{
    if selected.len() == 0 {
        known
    } else {
        let head = joined(known, selected.drop_last());
        if head.contains(selected.last()) {
            head
        } else {
            head.push(selected.last())
        }
    }
}

fn join_selected(known: &Vec<String>, selected: &Vec<String>) -> (res: Vec<String>)
    ensures
        texts(res@) == in_text_order(joined(texts(known@), texts(selected@))),
{
    let ghost picked = texts(selected@);
    let mut res: Vec<String> = copy_names(known);
    let mut i: usize = 0;
    assert(picked.take(0) =~= Seq::empty());
    while i < selected.len()
        invariant
            i <= selected@.len(),
            picked == texts(selected@),
            texts(res@) == joined(texts(known@), picked.take(i as int)),
        decreases selected@.len() - i,
    {
        let ghost had = texts(res@);
        assert(picked.take(i + 1).drop_last() =~= picked.take(i as int));
        assert(picked.take(i + 1).last() == selected@[i as int]@);
        if !holds(&res, selected[i].as_str()) {
            res.push(selected[i].clone());
            assert(texts(res@) =~= had.push(selected@[i as int]@));
        }
        i = i + 1;
    }
    assert(picked.take(i as int) =~= picked);
    sort_names(res)
}

/// Nothing watched is lost, everything picked is watched, nothing else is, and it all stands in
/// the order of texts.
pub proof fn picking_adds_and_keeps(known: Seq<Seq<char>>, selected: Seq<Seq<char>>)
    ensures
        forall|name: Seq<char>| #[trigger]
            in_text_order(joined(known, selected)).contains(name) == (known.contains(name)
                || selected.contains(name)),
        sorted(in_text_order(joined(known, selected)), text_order()),
{
    let all = joined(known, selected);
    joined_members(known, selected);
    text_order_is_strict_weak();
    stable_sort_sorts(all, text_order());
    stable_sort_permutes(all, text_order());
    let out = in_text_order(all);
    assert forall|name: Seq<char>| #[trigger] out.contains(name) == (known.contains(name)
        || selected.contains(name)) by {
        broadcast use vstd::seq_lib::group_to_multiset_ensures;

        assert(out.contains(name) == (out.to_multiset().count(name) > 0));
        assert(all.contains(name) == (all.to_multiset().count(name) > 0));
    }
}

/// Picking what is watched already changes nothing but the order.
pub proof fn picking_twice_adds_nothing(known: Seq<Seq<char>>, selected: Seq<Seq<char>>)
    requires
        forall|i: int| 0 <= i < selected.len() ==> known.contains(#[trigger] selected[i]),
    ensures
        joined(known, selected) == known,
    decreases selected.len(),
{
    if selected.len() > 0 {
        let t = selected.drop_last();
        assert forall|i: int| 0 <= i < t.len() implies known.contains(#[trigger] t[i]) by {
            assert(t[i] == selected[i]);
        }
        picking_twice_adds_nothing(known, t);
        assert(selected.last() == selected[selected.len() - 1]);
    }
}

proof fn joined_members(known: Seq<Seq<char>>, selected: Seq<Seq<char>>)
    ensures
        forall|name: Seq<char>| #[trigger]
            joined(known, selected).contains(name) == (known.contains(name)
                || selected.contains(name)),
    decreases selected.len(),
{
    if selected.len() > 0 {
        let t = selected.drop_last();
        joined_members(known, t);
        let x = selected.last();
        let head = joined(known, t);
        assert(selected =~= t.push(x));
        assert forall|name: Seq<char>| #[trigger] joined(known, selected).contains(name) == (
        known.contains(name) || selected.contains(name)) by {
            member_of_push(t, x, name);
            member_of_push(head, x, name);
        }
    }
}

proof fn member_of_push(s: Seq<Seq<char>>, x: Seq<char>, name: Seq<char>)
    ensures
        s.push(x).contains(name) == (s.contains(name) || name == x),
{
    if s.contains(name) {
        let i = choose|i: int| 0 <= i < s.len() && s[i] == name;
        assert(s.push(x)[i] == name);
    }
    if name == x {
        assert(s.push(x)[s.len() as int] == name);
    }
}

/// What is told where no repository was found.
pub fn no_repos_found(all: bool) -> (res: &'static str)
    ensures
        res@ == nothing_found(all),
{
    if all {
        "No repos found for your account."
    } else {
        "No repos found."
    }
}

/// The configuration once repositories were picked.
pub open spec fn with_repos(cfg: ConfigView, selected: Seq<Seq<char>>) -> ConfigView {
    ConfigView { repos: in_text_order(joined(cfg.repos, selected)), ..cfg }
}

/// Watches the picked repositories too. The result is the line that tells the user.
pub fn track_repos(cfg: &mut Config, selected: &Vec<String>) -> (res: String)
    ensures
        final(cfg)@ == with_repos(old(cfg)@, texts(selected@)),
        res@ == repos_saved(final(cfg)@.repos.len()),
        kept_and_added(old(cfg)@.repos, texts(selected@), final(cfg)@.repos),
        same_but_for_repos(old(cfg)@, final(cfg)@),
{
    proof {
        picked_repos_are_watched_too(cfg@, texts(selected@));
    }
    cfg.repos = join_selected(&cfg.repos, selected);
    let mut text = "Saved. Tracking ".to_owned();
    text.append(decimal_of(cfg.repos.len() as u64).as_str());
    text.append(" repo(s) total.");
    text
}

/// Why an instance cannot be used.
#[derive(Debug, PartialEq, Eq)]
pub enum InstanceError {
    Empty,
    Url(UrlError),
}

/// What an `InstanceError` says.
pub enum InstanceErrorView {
    Empty,
    Url(UrlErrorView),
}

impl View for InstanceError {
    type V = InstanceErrorView;

    open spec fn view(&self) -> InstanceErrorView {
        match self {
            InstanceError::Empty => InstanceErrorView::Empty,
            InstanceError::Url(e) => InstanceErrorView::Url(e@),
        }
    }
}

impl InstanceError {
    /// The line that tells the user.
    pub fn message(&self) -> (res: String)
        ensures
            res@ == instance_message(self@),
    {
        match self {
            InstanceError::Empty => "GitLab URL cannot be empty".to_owned(),
            InstanceError::Url(e) => e.message(),
        }
    }

    /// The line that tells the user, and the cause behind it.
    pub fn chain(&self) -> (res: ErrorChain)
        ensures
            res@ == instance_chain(self@),
    {
        match self {
            InstanceError::Empty => ErrorChain::new(self.message()),
            InstanceError::Url(e) => e.chain(),
        }
    }
}

/// The section of a GitLab instance of which nothing is known yet.
pub open spec fn new_section(url: Seq<char>) -> GitlabView {
    GitlabView { url, token: None, group: None, projects: Seq::empty() }
}

/// The section that the configuration has on GitLab, or an empty one.
pub open spec fn section_of(cfg: ConfigView) -> GitlabView {
    match cfg.gitlab {
        Some(gitlab) => gitlab,
        None => new_section(Seq::empty()),
    }
}

/// What is wrong with an address that was typed, of which `host` is what comes of looking for its
/// host.
pub open spec fn instance_error(
    typed: Seq<char>,
    host: Result<Seq<char>, UrlErrorView>,
) -> Option<InstanceErrorView> {
    if trimmed(typed).len() == 0 {
        Some(InstanceErrorView::Empty)
    } else {
        match host {
            Ok(_) => None,
            Err(e) => Some(InstanceErrorView::Url(e)),
        }
    }
}

/// Makes the instance that was typed the configured one, where its address is good; `host` is what
/// comes of looking for the host in the address without the white space around it. A bad address
/// leaves the configuration as it is.
pub fn adopt_checked_instance(cfg: &mut Config, typed: &str, host: Result<String, UrlError>) -> (res:
    Result<(), InstanceError>)
    ensures
        match instance_error(typed@, crate::gitlab_client::host_view(host)) {
            Some(e) => (res matches Err(told) && told@ == e) && final(cfg)@ == old(cfg)@,
            None => {
                &&& res is Ok
                &&& final(cfg)@ == (ConfigView {
                    gitlab: Some(
                        GitlabView { url: trimmed(typed@), ..section_of(old(cfg)@) },
                    ),
                    ..old(cfg)@
                })
            },
        },
{
    let url = trim(typed);
    if url.is_empty() {
        return Err(InstanceError::Empty);
    }
    if let Err(e) = host {
        return Err(InstanceError::Url(e));
    }
    let mut section = match &cfg.gitlab {
        Some(gitlab) => gitlab.clone(),
        None => GitlabConfig::default(),
    };
    section.url = url.to_owned();
    cfg.gitlab = Some(section);
    Ok(())
}

/// Makes the instance that was typed the configured one, where its address is good. A bad address
/// leaves the configuration as it is.
pub fn adopt_instance(cfg: &mut Config, typed: &str) -> (res: Result<(), InstanceError>)
    ensures
        ({
            let url = trimmed(typed@);
            match instance_error(typed@, instance_host(url, uri_parts(url))) {
                Some(e) => (res matches Err(told) && told@ == e) && final(cfg)@ == old(cfg)@,
                None => {
                    &&& res is Ok
                    &&& final(cfg)@ == (ConfigView {
                        gitlab: Some(GitlabView { url, ..section_of(old(cfg)@) }),
                        ..old(cfg)@
                    })
                },
            }
        }),
{
    let host = host_from_url(trim(typed));
    adopt_checked_instance(cfg, typed, host)
}

/// What is told where no project was found. A listing without a token is empty, not refused, so
/// the likely cause is named.
pub fn no_projects_found(has_token: bool) -> (res: &'static str)
    ensures
        res@ == no_projects(has_token),
{
    if has_token {
        "No GitLab projects found."
    } else {
        "No GitLab projects found. Set GITLAB_TOKEN to a personal access token with the `read_api` scope to see the projects you belong to."
    }
}

/// The configuration once projects listed from `group` were picked.
pub open spec fn with_projects(
    cfg: ConfigView,
    selected: Seq<Seq<char>>,
    group: Option<Seq<char>>,
) -> ConfigView {
    ConfigView {
        gitlab: Some(
            GitlabView {
                projects: in_text_order(joined(section_of(cfg).projects, selected)),
                group,
                ..section_of(cfg)
            },
        ),
        ..cfg
    }
}

/// Watches the picked projects too, and remembers the group that they were listed from. The result
/// is the line that tells the user.
pub fn track_projects(cfg: &mut Config, selected: &Vec<String>, group: Option<String>) -> (res:
    String)
    ensures
        final(cfg)@ == with_projects(old(cfg)@, texts(selected@), opt_text(group)),
        res@ == projects_saved((final(cfg)@.gitlab->0).projects.len()),
        projects_added(old(cfg)@, texts(selected@), opt_text(group), final(cfg)@),
{
    proof {
        picked_projects_are_watched_too(cfg@, texts(selected@), opt_text(group));
    }
    let mut section = match &cfg.gitlab {
        Some(gitlab) => gitlab.clone(),
        None => GitlabConfig::default(),
    };
    section.projects = join_selected(&section.projects, selected);
    section.group = group;
    let total = section.projects.len();
    assert(texts(section.projects@).len() == total);
    cfg.gitlab = Some(section);
    let mut text = "Saved. Tracking ".to_owned();
    text.append(decimal_of(total as u64).as_str());
    text.append(" GitLab project(s) total.");
    text
}

/// What adding from GitHub does next.
#[derive(Debug)]
pub enum GithubStep {
    /// Ask the user for an account.
    AskUser,
    /// Find out what is to be listed for the account; `save` says that the configuration is to be
    /// written first.
    Resolve { username: String, save: bool },
    /// List the repositories.
    List(ListSource),
    /// Let the user pick among what was found.
    Pick { found: Vec<String>, picked: Vec<usize> },
    /// Tell the user and be done; `save` says that the configuration is to be written first.
    Done { message: String, save: bool },
    /// Fail with this message.
    Refuse(String),
}

/// What a `GithubStep` says.
pub enum GithubStepView {
    AskUser,
    Resolve { username: Seq<char>, save: bool },
    List(SourceView),
    Pick { found: Seq<Seq<char>>, picked: Seq<usize> },
    Done { message: Seq<char>, save: bool },
    Refuse(Seq<char>),
}

impl View for GithubStep {
    type V = GithubStepView;

    open spec fn view(&self) -> GithubStepView {
        match self {
            GithubStep::AskUser => GithubStepView::AskUser,
            GithubStep::Resolve { username, save } => GithubStepView::Resolve {
                username: username@,
                save: *save,
            },
            GithubStep::List(source) => GithubStepView::List(source@),
            GithubStep::Pick { found, picked } => GithubStepView::Pick {
                found: texts(found@),
                picked: picked@,
            },
            GithubStep::Done { message, save } => GithubStepView::Done {
                message: message@,
                save: *save,
            },
            GithubStep::Refuse(message) => GithubStepView::Refuse(message@),
        }
    }
}

/// The first step of adding from GitHub.
pub open spec fn github_first(cfg: ConfigView, flag: Option<Seq<char>>, all: bool) -> (
    GithubStepView,
    ConfigView,
) {
    if all {
        (GithubStepView::List(SourceView::Authenticated), cfg)
    } else {
        match settled_user(flag, cfg.user) {
            UserView::Override(user) => (
                GithubStepView::Resolve { username: user, save: true },
                ConfigView { user: Some(user), ..cfg },
            ),
            UserView::Saved(user) => (GithubStepView::Resolve { username: user, save: false }, cfg),
            UserView::Prompt => (GithubStepView::AskUser, cfg),
            UserView::Blank => (GithubStepView::Refuse("--user cannot be empty"@), cfg),
        }
    }
}

/// The first step of adding from GitHub: with `--all` everything within reach is listed, else an
/// account is settled, by the flag, by the configuration or by asking. One that the flag names is
/// configured from now on.
pub fn github_start(cfg: &mut Config, flag: Option<String>, all: bool) -> (res: GithubStep)
    ensures
        (res@, final(cfg)@) == github_first(old(cfg)@, opt_text(flag), all),
{
    if all {
        return GithubStep::List(ListSource::Authenticated);
    }
    match resolve_user(flag, copy_option(&cfg.user)) {
        UserChoice::Override(user) => {
            cfg.user = Some(user.clone());
            GithubStep::Resolve { username: user, save: true }
        },
        UserChoice::Saved(user) => GithubStep::Resolve { username: user, save: false },
        UserChoice::Prompt => GithubStep::AskUser,
        UserChoice::Blank => GithubStep::Refuse("--user cannot be empty".to_owned()),
    }
}

/// The step once the user typed an account, and the configuration then.
pub open spec fn user_typed(cfg: ConfigView, typed: Seq<char>) -> (GithubStepView, ConfigView) {
    (
        GithubStepView::Resolve { username: trimmed(typed), save: true },
        ConfigView { user: Some(trimmed(typed)), ..cfg },
    )
}

/// The step once the user typed an account: it is configured from now on.
pub fn github_user_typed(cfg: &mut Config, typed: &str) -> (res: GithubStep)
    ensures
        (res@, final(cfg)@) == user_typed(old(cfg)@, typed@),
{
    let username = adopt_user(cfg, typed);
    GithubStep::Resolve { username, save: true }
}

/// What is told where no repository was found.
pub open spec fn nothing_found(all: bool) -> Seq<char> {
    if all {
        "No repos found for your account."@
    } else {
        "No repos found."@
    }
}

/// The step once repositories were listed.
pub open spec fn repos_offered(cfg: ConfigView, found: Seq<Seq<char>>, all: bool) -> GithubStepView {
    if found.len() == 0 {
        GithubStepView::Done { message: nothing_found(all), save: false }
    } else {
        GithubStepView::Pick { found, picked: watched_positions(found, cfg.repos) }
    }
}

/// The step once repositories were listed: a choice, in which what is watched already is picked
/// to begin with.
pub fn github_listed(cfg: &Config, found: Vec<String>, all: bool) -> (res: GithubStep)
    ensures
        res@ == repos_offered(cfg@, texts(found@), all),
{
    assert(texts(found@).len() == found@.len());
    if found.len() == 0 {
        return GithubStep::Done { message: no_repos_found(all).to_owned(), save: false };
    }
    let picked = preselected(&found, &cfg.repos);
    GithubStep::Pick { found, picked }
}

/// What is told once repositories were picked.
pub open spec fn repos_saved(total: nat) -> Seq<char> {
    "Saved. Tracking "@ + decimal(total) + " repo(s) total."@
}

/// The last step, and the configuration once the picked repositories are watched too.
pub open spec fn repos_picked(cfg: ConfigView, selected: Seq<Seq<char>>) -> (
    GithubStepView,
    ConfigView,
) {
    let after = with_repos(cfg, selected);
    (GithubStepView::Done { message: repos_saved(after.repos.len()), save: true }, after)
}

/// The last step: the picked repositories are watched too.
pub fn github_picked(cfg: &mut Config, selected: &Vec<String>) -> (res: GithubStep)
    ensures
        (res@, final(cfg)@) == repos_picked(old(cfg)@, texts(selected@)),
        kept_and_added(old(cfg)@.repos, texts(selected@), final(cfg)@.repos),
        same_but_for_repos(old(cfg)@, final(cfg)@),
{
    let message = track_repos(cfg, selected);
    GithubStep::Done { message, save: true }
}

/// What adding from GitLab does next.
#[derive(Debug)]
pub enum GitlabStep {
    /// Ask the user for the instance.
    AskInstance,
    /// Ask the user for a group, with this one to begin with; `save` says that the configuration
    /// is to be written first.
    AskGroup { remembered: Option<String>, save: bool },
    /// Let the user pick among what was found.
    Pick { found: Vec<String>, picked: Vec<usize> },
    /// Tell the user and be done; `save` says that the configuration is to be written first.
    Done { message: String, save: bool },
    /// Fail with this error.
    Refuse(ErrorChain),
}

/// What a `GitlabStep` says.
pub enum GitlabStepView {
    AskInstance,
    AskGroup { remembered: Option<Seq<char>>, save: bool },
    Pick { found: Seq<Seq<char>>, picked: Seq<usize> },
    Done { message: Seq<char>, save: bool },
    Refuse(ChainView),
}

impl View for GitlabStep {
    type V = GitlabStepView;

    open spec fn view(&self) -> GitlabStepView {
        match self {
            GitlabStep::AskInstance => GitlabStepView::AskInstance,
            GitlabStep::AskGroup { remembered, save } => GitlabStepView::AskGroup {
                remembered: opt_text(*remembered),
                save: *save,
            },
            GitlabStep::Pick { found, picked } => GitlabStepView::Pick {
                found: texts(found@),
                picked: picked@,
            },
            GitlabStep::Done { message, save } => GitlabStepView::Done {
                message: message@,
                save: *save,
            },
            GitlabStep::Refuse(chain) => GitlabStepView::Refuse(chain@),
        }
    }
}

/// The first step of adding from GitLab.
pub open spec fn gitlab_first(cfg: ConfigView) -> GitlabStepView {
    match cfg.gitlab {
        None => GitlabStepView::AskInstance,
        Some(gitlab) => GitlabStepView::AskGroup { remembered: gitlab.group, save: false },
    }
}

/// The first step of adding from GitLab: the instance is asked for only where none is settled.
pub fn gitlab_start(cfg: &Config) -> (res: GitlabStep)
    ensures
        res@ == gitlab_first(cfg@),
{
    match &cfg.gitlab {
        None => GitlabStep::AskInstance,
        Some(gitlab) => GitlabStep::AskGroup {
            remembered: copy_option(&gitlab.group),
            save: false,
        },
    }
}

/// The line that tells why an instance cannot be used.
pub open spec fn instance_message(e: InstanceErrorView) -> Seq<char> {
    match e {
        InstanceErrorView::Empty => "GitLab URL cannot be empty"@,
        InstanceErrorView::Url(e) => crate::gitlab_client::url_message(e),
    }
}

/// What tells why an instance cannot be used, with the cause behind it.
pub open spec fn instance_chain(e: InstanceErrorView) -> ChainView {
    match e {
        InstanceErrorView::Empty => alone(instance_message(e)),
        InstanceErrorView::Url(e) => url_chain(e),
    }
}

/// The step once the user typed an instance of which `host` is what comes of looking for its host,
/// and the configuration then. A good one is written down at once, so that it need not be typed
/// again whatever comes of the rest.
pub open spec fn instance_typed(
    cfg: ConfigView,
    typed: Seq<char>,
    host: Result<Seq<char>, UrlErrorView>,
) -> (GitlabStepView, ConfigView) {
    match instance_error(typed, host) {
        Some(e) => (GitlabStepView::Refuse(instance_chain(e)), cfg),
        None => (
            GitlabStepView::AskGroup { remembered: section_of(cfg).group, save: true },
            ConfigView {
                gitlab: Some(GitlabView { url: trimmed(typed), ..section_of(cfg) }),
                ..cfg
            },
        ),
    }
}

fn after_instance(cfg: &Config, adopted: Result<(), InstanceError>) -> (res: GitlabStep)
    ensures
        res@ == (match adopted {
            Err(e) => GitlabStepView::Refuse(instance_chain(e@)),
            Ok(_) => GitlabStepView::AskGroup { remembered: section_of(cfg@).group, save: true },
        }),
{
    match adopted {
        Err(e) => GitlabStep::Refuse(e.chain()),
        Ok(_) => {
            let remembered = match &cfg.gitlab {
                Some(gitlab) => copy_option(&gitlab.group),
                None => None,
            };
            GitlabStep::AskGroup { remembered, save: true }
        },
    }
}

/// The step once the user typed an instance of which `host` is what comes of looking for its host.
pub fn gitlab_checked_instance_typed(
    cfg: &mut Config,
    typed: &str,
    host: Result<String, UrlError>,
) -> (res: GitlabStep)
    ensures
        (res@, final(cfg)@) == instance_typed(
            old(cfg)@,
            typed@,
            crate::gitlab_client::host_view(host),
        ),
{
    let adopted = adopt_checked_instance(cfg, typed, host);
    after_instance(cfg, adopted)
}

/// The step once the user typed an instance.
pub fn gitlab_instance_typed(cfg: &mut Config, typed: &str) -> (res: GitlabStep)
    ensures
        (res@, final(cfg)@) == instance_typed(
            old(cfg)@,
            typed@,
            instance_host(trimmed(typed@), uri_parts(trimmed(typed@))),
        ),
{
    let adopted = adopt_instance(cfg, typed);
    after_instance(cfg, adopted)
}

/// What is told where no project was found.
pub open spec fn no_projects(has_token: bool) -> Seq<char> {
    if has_token {
        "No GitLab projects found."@
    } else {
        "No GitLab projects found. Set GITLAB_TOKEN to a personal access token with the `read_api` scope to see the projects you belong to."@
    }
}

/// The step once projects were listed.
pub open spec fn projects_offered(
    cfg: ConfigView,
    found: Seq<Seq<char>>,
    has_token: bool,
) -> GitlabStepView {
    if found.len() == 0 {
        GitlabStepView::Done { message: no_projects(has_token), save: false }
    } else {
        GitlabStepView::Pick { found, picked: watched_positions(found, section_of(cfg).projects) }
    }
}

/// The step once projects were listed: a choice, in which what is watched already is picked to
/// begin with.
pub fn gitlab_listed(cfg: &Config, found: Vec<String>, has_token: bool) -> (res: GitlabStep)
    ensures
        res@ == projects_offered(cfg@, texts(found@), has_token),
{
    assert(texts(found@).len() == found@.len());
    if found.len() == 0 {
        return GitlabStep::Done { message: no_projects_found(has_token).to_owned(), save: false };
    }
    let none: Vec<String> = Vec::new();
    assert(texts(none@) =~= Seq::empty());
    let picked = match &cfg.gitlab {
        Some(gitlab) => preselected(&found, &gitlab.projects),
        None => preselected(&found, &none),
    };
    GitlabStep::Pick { found, picked }
}

/// What is told once projects were picked.
pub open spec fn projects_saved(total: nat) -> Seq<char> {
    "Saved. Tracking "@ + decimal(total) + " GitLab project(s) total."@
}

/// The last step, and the configuration once the picked projects are watched too and the group is
/// remembered.
pub open spec fn projects_picked(
    cfg: ConfigView,
    selected: Seq<Seq<char>>,
    group: Option<Seq<char>>,
) -> (GitlabStepView, ConfigView) {
    let after = with_projects(cfg, selected, group);
    (
        GitlabStepView::Done {
            message: projects_saved((after.gitlab->0).projects.len()),
            save: true,
        },
        after,
    )
}

/// The last step: the picked projects are watched too, and the group is remembered.
pub fn gitlab_picked(cfg: &mut Config, selected: &Vec<String>, group: Option<String>) -> (res:
    GitlabStep)
    ensures
        (res@, final(cfg)@) == projects_picked(old(cfg)@, texts(selected@), opt_text(group)),
        projects_added(old(cfg)@, texts(selected@), opt_text(group), final(cfg)@),
{
    let message = track_projects(cfg, selected, group);
    GitlabStep::Done { message, save: true }
}

/// Adding from one forge leaves what is watched at the other as it is.
pub proof fn adding_leaves_the_other_forge_alone(
    cfg: ConfigView,
    selected: Seq<Seq<char>>,
    group: Option<Seq<char>>,
)
    ensures
        with_projects(cfg, selected, group).repos == cfg.repos,
        with_projects(cfg, selected, group).user == cfg.user,
        with_projects(cfg, selected, group).forks == cfg.forks,
        (with_projects(cfg, selected, group).gitlab->0).url == section_of(cfg).url,
        (with_projects(cfg, selected, group).gitlab->0).token == section_of(cfg).token,
{
}

} // verus!
