//! Laws on what is watched: adding to it, taking from it, showing it, and naming it for once.
use vstd::prelude::*;

use crate::commands::add::{
    chosen_group, flagged_provider, github_first, gitlab_first, instance_typed, joined, projects_offered,
    projects_picked, projects_saved, provider_name, repos_offered, repos_picked, repos_saved, settled_user, user_typed, watched_positions,
    with_projects, with_repos, GithubStepView, GitlabStepView, GroupView, Provider, UserView,
};
use crate::commands::list::{listing, watched, EntryView, TargetView};
use crate::commands::refusal;
use crate::commands::remove::{github_targets, gitlab_targets, none_of, removed, report};
use crate::config::{filled_in, repos_override, ConfigView};
use crate::github::SourceView;
use crate::gitlab::label_of;
use crate::gitlab_client::{url_chain, UrlErrorView};
use crate::laws::order::{members_are_shared, names_stand_in_order};
use crate::laws::text::{bare, separators_part_the_pieces, trimming_takes_white_space_alone};
use crate::order::in_text_order;
use crate::text::{decimal, is_white_space, split, text_before};

verus! {

/// Whether a text holds white space alone.
pub open spec fn blank(text: Seq<char>) -> bool {
    forall|k: int| 0 <= k < text.len() ==> is_white_space(#[trigger] text[k])
}

/// How often a name stands in a list.
pub open spec fn times(names: Seq<Seq<char>>, name: Seq<char>) -> nat {
    names.to_multiset().count(name)
}

/// Whether `after` holds what `before` held, as often, and of `picked` each that is new once, in the
/// order of texts, and nothing else.
pub open spec fn kept_and_added(
    before: Seq<Seq<char>>,
    picked: Seq<Seq<char>>,
    after: Seq<Seq<char>>,
) -> bool {
    &&& forall|name: Seq<char>| #[trigger]
        after.contains(name) == (before.contains(name) || picked.contains(name))
    &&& forall|name: Seq<char>| #[trigger]
        times(after, name) == (if before.contains(name) {
            times(before, name)
        } else if picked.contains(name) {
            1
        } else {
            0
        })
    &&& forall|i: int, j: int|
        #![trigger after[i], after[j]]
        0 <= i < j < after.len() ==> !text_before(after[j], after[i])
}

proof fn joining_counts(known: Seq<Seq<char>>, selected: Seq<Seq<char>>, name: Seq<char>)
    ensures
        joined(known, selected).contains(name) == (known.contains(name) || selected.contains(name)),
        times(joined(known, selected), name) == (if known.contains(name) {
            times(known, name)
        } else if selected.contains(name) {
            1
        } else {
            0
        }),
    decreases selected.len(),
{
    broadcast use vstd::seq_lib::group_to_multiset_ensures;

    if selected.len() > 0 {
        let t = selected.drop_last();
        let x = selected.last();
        let head = joined(known, t);
        joining_counts(known, t, name);
        assert(selected =~= t.push(x));
        assert(selected.contains(name) == (t.contains(name) || name == x)) by {
            if t.contains(name) {
                let i = choose|i: int| 0 <= i < t.len() && t[i] == name;
                assert(selected[i] == name);
            }
            if name == x {
                assert(selected[selected.len() - 1] == name);
            }
        }
        assert(head.push(x).contains(name) == (head.contains(name) || name == x)) by {
            if head.contains(name) {
                let i = choose|i: int| 0 <= i < head.len() && head[i] == name;
                assert(head.push(x)[i] == name);
            }
            if name == x {
                assert(head.push(x)[head.len() as int] == name);
            }
        }
        assert(head.push(x).to_multiset() == head.to_multiset().insert(x));
        assert(head.contains(x) == (times(head, x) > 0));
    } else {
        assert(known.contains(name) == (times(known, name) > 0));
    }
}

proof fn picking_keeps_and_adds(known: Seq<Seq<char>>, selected: Seq<Seq<char>>)
    ensures
        kept_and_added(known, selected, in_text_order(joined(known, selected))),
{
    let all = joined(known, selected);
    let out = in_text_order(all);
    names_stand_in_order(all);
    members_are_shared(out, all);
    assert forall|name: Seq<char>| #[trigger] out.contains(name) == (known.contains(name)
        || selected.contains(name)) by {
        joining_counts(known, selected, name);
        assert(out.contains(name) == all.contains(name));
    }
    assert forall|name: Seq<char>| #[trigger] times(out, name) == (if known.contains(name) {
        times(known, name)
    } else if selected.contains(name) {
        1
    } else {
        0
    }) by {
        joining_counts(known, selected, name);
    }
}

/// Whether two configurations differ in the watched repositories at most.
pub open spec fn same_but_for_repos(a: ConfigView, b: ConfigView) -> bool {
    &&& a.user == b.user
    &&& a.theme == b.theme
    &&& a.sort == b.sort
    &&& a.forks == b.forks
    &&& a.gitlab == b.gitlab
}

/// Picking repositories keeps what was watched and adds what was picked; nothing else of the
/// configuration changes.
pub proof fn picked_repos_are_watched_too(cfg: ConfigView, selected: Seq<Seq<char>>)
    ensures
        kept_and_added(cfg.repos, selected, with_repos(cfg, selected).repos),
        same_but_for_repos(cfg, with_repos(cfg, selected)),
{
    picking_keeps_and_adds(cfg.repos, selected);
}

/// The projects that are watched.
pub open spec fn tracked_projects(cfg: ConfigView) -> Seq<Seq<char>> {
    match cfg.gitlab {
        Some(gitlab) => gitlab.projects,
        None => Seq::empty(),
    }
}

/// Whether `out` is a configuration once projects listed from `group` were picked: the projects that
/// were watched are kept and those that were picked are added, and the group is remembered; instance
/// and token stay, and so does everything else.
pub open spec fn projects_added(
    cfg: ConfigView,
    selected: Seq<Seq<char>>,
    group: Option<Seq<char>>,
    out: ConfigView,
) -> bool {
    &&& out.gitlab is Some
    &&& kept_and_added(tracked_projects(cfg), selected, tracked_projects(out))
    &&& (out.gitlab->0).group == group
    &&& cfg.gitlab matches Some(gitlab) ==> (out.gitlab->0).url == gitlab.url && (
    out.gitlab->0).token == gitlab.token
    &&& cfg.gitlab is None ==> (out.gitlab->0).url.len() == 0 && (out.gitlab->0).token is None
    &&& out.repos == cfg.repos
    &&& out.user == cfg.user
    &&& out.theme == cfg.theme
    &&& out.sort == cfg.sort
    &&& out.forks == cfg.forks
}

/// Picking projects adds them and loses nothing.
pub proof fn picked_projects_are_watched_too(
    cfg: ConfigView,
    selected: Seq<Seq<char>>,
    group: Option<Seq<char>>,
)
    ensures
        projects_added(cfg, selected, group, with_projects(cfg, selected, group)),
{
    picking_keeps_and_adds(tracked_projects(cfg), selected);
}

/// Once something was picked the configuration is written down, and what is told is how many are
/// watched now.
pub proof fn what_was_picked_is_written_down(
    cfg: ConfigView,
    selected: Seq<Seq<char>>,
    group: Option<Seq<char>>,
)
    ensures
        ({
            let (step, after) = repos_picked(cfg, selected);
            &&& kept_and_added(cfg.repos, selected, after.repos)
            &&& same_but_for_repos(cfg, after)
            &&& step matches GithubStepView::Done { message, save } && save && message
                == "Saved. Tracking "@ + decimal(after.repos.len()) + " repo(s) total."@
        }),
        ({
            let (step, after) = projects_picked(cfg, selected, group);
            &&& projects_added(cfg, selected, group, after)
            &&& step matches GitlabStepView::Done { message, save } && save && message
                == "Saved. Tracking "@ + decimal(tracked_projects(after).len())
                + " GitLab project(s) total."@
        }),
{
    picked_repos_are_watched_too(cfg, selected);
    picked_projects_are_watched_too(cfg, selected, group);
}

/// What is told once something was picked is how many are watched now.
pub proof fn totals_are_told(total: nat)
    ensures
        repos_saved(total) == "Saved. Tracking "@ + decimal(total) + " repo(s) total."@,
        projects_saved(total) == "Saved. Tracking "@ + decimal(total)
            + " GitLab project(s) total."@,
{
}

proof fn positions_of_watched(found: Seq<Seq<char>>, known: Seq<Seq<char>>)
    requires
        found.len() <= usize::MAX,
    ensures
        forall|p: usize| #[trigger]
            watched_positions(found, known).contains(p) == (p < found.len() && known.contains(
                found[p as int],
            )),
        forall|i: int, j: int|
            #![trigger watched_positions(found, known)[i], watched_positions(found, known)[j]]
            0 <= i < j < watched_positions(found, known).len() ==> watched_positions(
                found,
                known,
            )[i] < watched_positions(found, known)[j],
        forall|i: int|
            0 <= i < watched_positions(found, known).len() ==> #[trigger] watched_positions(
                found,
                known,
            )[i] < found.len(),
    decreases found.len(),
{
    if found.len() > 0 {
        let t = found.drop_last();
        positions_of_watched(t, known);
        let head = watched_positions(t, known);
        let all = watched_positions(found, known);
        let n = (found.len() - 1) as usize;
        assert forall|p: usize| #[trigger] all.contains(p) == (p < found.len() && known.contains(
            found[p as int],
        )) by {
            assert(head.contains(p) == (p < t.len() && known.contains(t[p as int])));
            if head.contains(p) {
                let i = choose|i: int| 0 <= i < head.len() && head[i] == p;
                assert(all[i] == p);
            }
            if p == n && known.contains(found.last()) {
                assert(all[all.len() - 1] == p);
            }
            if all.contains(p) {
                let i = choose|i: int| 0 <= i < all.len() && all[i] == p;
                if i < head.len() {
                    assert(head[i] == p);
                }
            }
            if p < t.len() {
                assert(t[p as int] == found[p as int]);
            }
        }
    }
}

/// What was listed is offered, and of it what is watched already is picked to begin with, in its
/// order; where nothing was listed there is nothing to pick and nothing to write.
pub proof fn what_is_watched_is_picked_to_begin_with(
    cfg: ConfigView,
    found: Seq<Seq<char>>,
    flag: bool,
)
    requires
        found.len() <= usize::MAX,
    ensures
        found.len() == 0 ==> (repos_offered(cfg, found, flag) matches GithubStepView::Done {
            message,
            save,
        } && !save && message == (if flag {
            "No repos found for your account."@
        } else {
            "No repos found."@
        })),
        found.len() == 0 ==> (projects_offered(cfg, found, flag) matches GitlabStepView::Done {
            message,
            save,
        } && !save && message == (if flag {
            "No GitLab projects found."@
        } else {
            "No GitLab projects found. Set GITLAB_TOKEN to a personal access token with the `read_api` scope to see the projects you belong to."@
        })),
        found.len() > 0 ==> (repos_offered(cfg, found, flag) matches GithubStepView::Pick {
            found: offered,
            picked,
        } && offered == found && forall|p: usize| #[trigger]
            picked.contains(p) == (p < found.len() && cfg.repos.contains(found[p as int]))),
        found.len() > 0 ==> (projects_offered(cfg, found, flag) matches GitlabStepView::Pick {
            found: offered,
            picked,
        } && offered == found && forall|p: usize| #[trigger]
            picked.contains(p) == (p < found.len() && tracked_projects(cfg).contains(
                found[p as int],
            ))),
        forall|i: int, j: int|
            #![trigger watched_positions(found, cfg.repos)[i], watched_positions(
                found,
                cfg.repos,
            )[j]]
            0 <= i < j < watched_positions(found, cfg.repos).len() ==> watched_positions(
                found,
                cfg.repos,
            )[i] < watched_positions(found, cfg.repos)[j],
{
    positions_of_watched(found, cfg.repos);
    positions_of_watched(found, tracked_projects(cfg));
}

/// The account that repositories are listed from: a blank flag names none, any other names it,
/// whatever is configured; without a flag the configured one stands, and without either the user is
/// asked.
pub proof fn the_flag_names_the_account(flag: Option<Seq<char>>, saved: Option<Seq<char>>)
    ensures
        flag matches Some(name) ==> (settled_user(flag, saved) is Blank <==> blank(name)),
        flag matches Some(name) ==> (!blank(name) ==> (settled_user(
            flag,
            saved,
        ) matches UserView::Override(user) && bare(name, user))),
        flag is None && saved is Some ==> settled_user(flag, saved) == UserView::Saved(saved->0),
        flag is None && saved is None ==> settled_user(flag, saved) is Prompt,
{
    if let Some(name) = flag {
        trimming_takes_white_space_alone(name);
    }
}

/// A flag that concerns GitHub settles the forge, and without one the user is asked.
pub proof fn flags_settle_the_forge(user: bool, all: bool)
    ensures
        flagged_provider(user, all) is None <==> !user && !all,
        flagged_provider(user, all) matches Some(forge) ==> forge == Provider::Github
            && provider_name(forge) == "GitHub"@,
        provider_name(Provider::Gitlab) == "GitLab"@,
{
}

/// Whether two configurations differ in the GitHub account at most.
pub open spec fn same_but_for_user(a: ConfigView, b: ConfigView) -> bool {
    &&& a.repos == b.repos
    &&& a.theme == b.theme
    &&& a.sort == b.sort
    &&& a.forks == b.forks
    &&& a.gitlab == b.gitlab
}

/// Adding from GitHub begins with everything within reach where that is asked for; else with the
/// account that the flag names, which is configured and written down, with the configured one, or
/// with the question for one. A blank flag is refused, and changes nothing.
pub proof fn adding_from_github_begins_with_an_account(
    cfg: ConfigView,
    flag: Option<Seq<char>>,
    all: bool,
)
    ensures
        ({
            let (step, after) = github_first(cfg, flag, all);
            &&& same_but_for_user(cfg, after)
            &&& all ==> step == GithubStepView::List(SourceView::Authenticated) && after == cfg
            &&& !all ==> match flag {
                Some(name) => if blank(name) {
                    step == GithubStepView::Refuse("--user cannot be empty"@) && after == cfg
                } else {
                    step matches GithubStepView::Resolve { username, save } && save && bare(
                        name,
                        username,
                    ) && after.user == Some(username)
                },
                None => after == cfg && match cfg.user {
                    Some(user) => step == (GithubStepView::Resolve { username: user, save: false }),
                    None => step is AskUser,
                },
            }
        }),
{
    if let Some(name) = flag {
        trimming_takes_white_space_alone(name);
    }
}

/// An account that was typed is configured, without the white space around it, written down, and
/// asked about.
pub proof fn typed_accounts_are_configured(cfg: ConfigView, typed: Seq<char>)
    ensures
        ({
            let (step, after) = user_typed(cfg, typed);
            &&& step matches GithubStepView::Resolve { username, save } && save && bare(
                typed,
                username,
            ) && after.user == Some(username)
            &&& same_but_for_user(cfg, after)
        }),
{
    trimming_takes_white_space_alone(typed);
}

/// Adding from GitLab asks for the instance just where none is configured; else it goes on with the
/// group that was remembered.
pub proof fn settled_instances_are_not_asked_for(cfg: ConfigView)
    ensures
        gitlab_first(cfg) is AskInstance <==> cfg.gitlab is None,
        cfg.gitlab matches Some(gitlab) ==> gitlab_first(cfg) == (GitlabStepView::AskGroup {
            remembered: gitlab.group,
            save: false,
        }),
{
}

/// Projects are listed from the group that was typed, without the white space around it, and from
/// all that the user is a member of where none was.
pub proof fn groups_are_typed(input: Seq<char>)
    ensures
        chosen_group(input) is Membership <==> blank(input),
        chosen_group(input) matches GroupView::Group(group) ==> bare(input, group),
{
    trimming_takes_white_space_alone(input);
}

/// An instance that was typed is configured just where it is not blank and has a host; then its
/// address is written down, without the white space around it, and nothing else of the
/// configuration changes. Any other is refused, is told why, and changes nothing.
pub proof fn only_good_instances_are_configured(
    cfg: ConfigView,
    typed: Seq<char>,
    host: Result<Seq<char>, UrlErrorView>,
)
    ensures
        ({
            let (step, after) = instance_typed(cfg, typed, host);
            let good = !blank(typed) && host is Ok;
            &&& !good ==> step is Refuse && after == cfg
            &&& blank(typed) ==> (step matches GitlabStepView::Refuse(told) && told.message
                == "GitLab URL cannot be empty"@ && told.causes.len() == 0)
            &&& !blank(typed) ==> (host matches Err(e) ==> step == GitlabStepView::Refuse(
                url_chain(e),
            ))
            &&& good ==> {
                &&& step matches GitlabStepView::AskGroup { remembered, save } && save && remembered
                    == (match cfg.gitlab {
                    Some(gitlab) => gitlab.group,
                    None => None,
                })
                &&& after.gitlab is Some
                &&& bare(typed, (after.gitlab->0).url)
                &&& tracked_projects(after) == tracked_projects(cfg)
                &&& cfg.gitlab matches Some(gitlab) ==> (after.gitlab->0).token == gitlab.token && (
                after.gitlab->0).group == gitlab.group
                &&& after.user == cfg.user
                &&& after.repos == cfg.repos
                &&& after.theme == cfg.theme
                &&& after.sort == cfg.sort
                &&& after.forks == cfg.forks
            }
        }),
{
    trimming_takes_white_space_alone(typed);
}

/// Whether one of the picked entries points at this repository or project.
pub open spec fn picked(selected: Seq<EntryView>, target: TargetView) -> bool {
    exists|i: int| 0 <= i < selected.len() && (#[trigger] selected[i]).target == target
}

proof fn targets_are_picked(selected: Seq<EntryView>, name: Seq<char>)
    ensures
        github_targets(selected).contains(name) == picked(selected, TargetView::Github(name)),
        gitlab_targets(selected).contains(name) == picked(selected, TargetView::Gitlab(name)),
    decreases selected.len(),
{
    if selected.len() > 0 {
        let t = selected.drop_last();
        let last = selected[selected.len() - 1];
        targets_are_picked(t, name);
        let a = github_targets(t);
        let b = gitlab_targets(t);
        let all_a = github_targets(selected);
        let all_b = gitlab_targets(selected);
        assert forall|target: TargetView| #[trigger] picked(selected, target) == (picked(t, target)
            || last.target == target) by {
            if picked(t, target) {
                let i = choose|i: int| 0 <= i < t.len() && (#[trigger] t[i]).target == target;
                assert(selected[i] == t[i]);
            }
            if picked(selected, target) {
                let i = choose|i: int|
                    0 <= i < selected.len() && (#[trigger] selected[i]).target == target;
                if i < t.len() {
                    assert(t[i] == selected[i]);
                }
            }
        }
        if a.contains(name) {
            let i = choose|i: int| 0 <= i < a.len() && a[i] == name;
            assert(all_a[i] == name);
        }
        if b.contains(name) {
            let i = choose|i: int| 0 <= i < b.len() && b[i] == name;
            assert(all_b[i] == name);
        }
        if last.target == TargetView::Github(name) {
            assert(all_a[all_a.len() - 1] == name);
        }
        if last.target == TargetView::Gitlab(name) {
            assert(all_b[all_b.len() - 1] == name);
        }
        if all_a.contains(name) {
            let i = choose|i: int| 0 <= i < all_a.len() && all_a[i] == name;
            if i < a.len() {
                assert(a[i] == name);
            }
        }
        if all_b.contains(name) {
            let i = choose|i: int| 0 <= i < all_b.len() && all_b[i] == name;
            if i < b.len() {
                assert(b[i] == name);
            }
        }
    }
}

/// Whether `out` is a configuration without what was picked: that is watched no longer, everything
/// else is, in the order that it had, and the rest of the configuration stays.
pub open spec fn taken_from(cfg: ConfigView, selected: Seq<EntryView>, out: ConfigView) -> bool {
    &&& out.repos == cfg.repos.filter(
        |repo: Seq<char>| !picked(selected, TargetView::Github(repo)),
    )
    &&& out.gitlab is Some <==> cfg.gitlab is Some
    &&& cfg.gitlab matches Some(gitlab) ==> {
        let section = out.gitlab->0;
        &&& section.projects == gitlab.projects.filter(
            |project: Seq<char>| !picked(selected, TargetView::Gitlab(project)),
        )
        &&& section.url == gitlab.url
        &&& section.token == gitlab.token
        &&& section.group == gitlab.group
    }
    &&& out.user == cfg.user
    &&& out.theme == cfg.theme
    &&& out.sort == cfg.sort
    &&& out.forks == cfg.forks
}

/// Removing takes what was picked, and nothing else.
pub proof fn only_what_was_picked_is_removed(cfg: ConfigView, selected: Seq<EntryView>)
    ensures
        taken_from(cfg, selected, removed(cfg, selected)),
{
    assert forall|name: Seq<char>| github_targets(selected).contains(name) == picked(
        selected,
        TargetView::Github(name),
    ) && gitlab_targets(selected).contains(name) == picked(
        selected,
        TargetView::Gitlab(name),
    ) by {
        targets_are_picked(selected, name);
    }
    assert(none_of(github_targets(selected)) =~= (|repo: Seq<char>|
        !picked(selected, TargetView::Github(repo))));
    assert(none_of(gitlab_targets(selected)) =~= (|project: Seq<char>|
        !picked(selected, TargetView::Gitlab(project))));
}

/// What was picked for removal is parted by forge, in the order in which it was picked: what comes
/// of two lists is what comes of the one and then of the other, and an entry goes to its own forge
/// alone.
pub proof fn removals_are_parted_by_forge(
    a: Seq<EntryView>,
    b: Seq<EntryView>,
    entry: EntryView,
)
    ensures
        github_targets(a + b) == github_targets(a) + github_targets(b),
        gitlab_targets(a + b) == gitlab_targets(a) + gitlab_targets(b),
        entry.target matches TargetView::Github(repo) ==> github_targets(seq![entry]) == seq![repo]
            && gitlab_targets(seq![entry]).len() == 0,
        entry.target matches TargetView::Gitlab(project) ==> gitlab_targets(seq![entry])
            == seq![project] && github_targets(seq![entry]).len() == 0,
    decreases b.len(),
{
    let one = seq![entry];
    assert(one.drop_last() =~= Seq::empty());
    assert(one.last() == entry);
    assert(github_targets(one.drop_last()) =~= Seq::empty());
    assert(gitlab_targets(one.drop_last()) =~= Seq::empty());
    if b.len() == 0 {
        assert(a + b =~= a);
        assert(github_targets(b) =~= Seq::empty());
        assert(gitlab_targets(b) =~= Seq::empty());
    } else {
        removals_are_parted_by_forge(a, b.drop_last(), entry);
        assert((a + b).drop_last() =~= a + b.drop_last());
        assert((a + b).last() == b.last());
    }
    assert(github_targets(a + b) =~= github_targets(a) + github_targets(b));
    assert(gitlab_targets(a + b) =~= gitlab_targets(a) + gitlab_targets(b));
}

/// How many were removed is told, and where none was, that none was.
pub proof fn removals_are_told(n: nat)
    ensures
        n == 0 ==> report(n) == "Nothing removed."@,
        n > 0 ==> report(n) == "Removed "@ + decimal(n) + " repo(s)."@,
{
}

/// Whether `out` shows what is watched: first the repositories by their names, then the projects, by
/// the label that the digest gives them, or by their paths where the host is not known; each entry
/// points at what it shows.
pub open spec fn shows_everything(
    cfg: ConfigView,
    host: Option<Seq<char>>,
    out: Seq<EntryView>,
) -> bool {
    let n = cfg.repos.len();
    &&& out.len() == n + tracked_projects(cfg).len()
    &&& forall|i: int|
        0 <= i < n ==> (#[trigger] out[i]).label == cfg.repos[i] && out[i].target
            == TargetView::Github(cfg.repos[i])
    &&& forall|i: int|
        n <= i < out.len() ==> (#[trigger] out[i]).target == TargetView::Gitlab(
            tracked_projects(cfg)[i - n],
        ) && out[i].label == (match host {
            Some(host) => label_of(host, tracked_projects(cfg)[i - n]),
            None => tracked_projects(cfg)[i - n],
        })
}

/// Everything that is watched is shown.
pub proof fn everything_watched_is_shown(cfg: ConfigView, host: Option<Seq<char>>)
    ensures
        shows_everything(cfg, host, watched(cfg, host)),
{
}

/// Of what is watched a line each is printed, and where nothing is, how to begin.
pub proof fn lists_print_the_labels(entries: Seq<EntryView>)
    ensures
        entries.len() > 0 ==> listing(entries).len() == entries.len() && forall|i: int|
            0 <= i < entries.len() ==> #[trigger] listing(entries)[i] == entries[i].label,
        entries.len() == 0 ==> listing(entries) == seq![
            "No repos tracked. Run `ghpending add` to get started."@,
        ],
{
}

/// A flag that shapes the digest is refused just where a command is given beside it.
pub proof fn digest_flags_go_with_the_digest(
    limit: bool,
    subscribed: bool,
    sort: bool,
    command: bool,
)
    ensures
        refusal(limit, subscribed, sort, command) is Some <==> command && (limit || subscribed
            || sort),
        command && limit ==> refusal(limit, subscribed, sort, command) == Some(
            "--limit can only be used when rendering the digest"@,
        ),
        command && !limit && subscribed ==> refusal(limit, subscribed, sort, command) == Some(
            "--subscribed can only be used when rendering the digest"@,
        ),
        command && !limit && !subscribed && sort ==> refusal(limit, subscribed, sort, command)
            == Some("--sort can only be used when rendering the digest"@),
{
}

/// The repositories that the environment names, none where it names none.
pub open spec fn named_for_once(raw: Seq<char>) -> Seq<Seq<char>> {
    match repos_override(Some(raw)) {
        Some(repos) => repos,
        None => Seq::empty(),
    }
}

proof fn filling_in_lists(a: Seq<Seq<char>>, b: Seq<Seq<char>>)
    ensures
        filled_in(a + b) == filled_in(a) + filled_in(b),
    decreases b.len(),
{
    let all = a + b;
    if b.len() == 0 {
        assert(all =~= a);
        assert(filled_in(a) + filled_in(b) =~= filled_in(a));
    } else {
        filling_in_lists(a, b.drop_last());
        assert(all.drop_last() =~= a + b.drop_last());
        assert(all.last() == b.last());
        assert(filled_in(all) =~= filled_in(a) + filled_in(b));
    }
}

/// The environment names repositories between commas: what stands before a comma and what stands
/// behind it are read apart and put together, and a text without a comma names itself, without the
/// white space around it, unless it is blank. Where nothing is named, what is watched is meant.
pub proof fn commas_part_the_names(a: Seq<char>, b: Seq<char>)
    ensures
        named_for_once(a + seq![','] + b) == named_for_once(a) + named_for_once(b),
        (forall|k: int| 0 <= k < a.len() ==> #[trigger] a[k] != ',') ==> {
            &&& blank(a) ==> named_for_once(a).len() == 0
            &&& !blank(a) ==> named_for_once(a).len() == 1 && bare(a, named_for_once(a)[0])
        },
        repos_override(None) is None,
        repos_override(Some(a)) matches Some(repos) ==> repos.len() > 0,
{
    separators_part_the_pieces(a, b, ',');
    filling_in_lists(split(a, ','), split(b, ','));
    assert(named_for_once(a) =~= filled_in(split(a, ',')));
    assert(named_for_once(b) =~= filled_in(split(b, ',')));
    let all = a + seq![','] + b;
    assert(named_for_once(all) =~= filled_in(split(all, ',')));
    if forall|k: int| 0 <= k < a.len() ==> #[trigger] a[k] != ',' {
        trimming_takes_white_space_alone(a);
        let one = seq![a];
        assert(one.drop_last() =~= Seq::empty());
        assert(one.last() == a);
        assert(filled_in(one.drop_last()) =~= Seq::empty());
    }
}

} // verus!
