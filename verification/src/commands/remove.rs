//! Ceasing to watch.
use vstd::prelude::*;
use vstd::string::*;

use crate::commands::list::{EntryView, Target, TargetView, WatchEntry};
use crate::config::{Config, ConfigView, GitlabView};
use crate::laws::watch::{only_what_was_picked_is_removed, taken_from};
use crate::text::{decimal, decimal_of, same, texts, views};

verus! {

broadcast use {vstd::string::group_string_axioms, vstd::std_specs::hash::group_hash_axioms};

/// The views of borrowed strings.
pub open spec fn str_texts(strings: Seq<&str>) -> Seq<Seq<char>> {
    strings.map_values(|s: &str| s@)
}

/// The repositories among the targets of entries.
pub open spec fn github_targets(entries: Seq<EntryView>) -> Seq<Seq<char>>
    decreases entries.len(),
{
    if entries.len() == 0 {
        Seq::empty()
    } else {
        let head = github_targets(entries.drop_last());
        match entries.last().target {
            TargetView::Github(repo) => head.push(repo),
            TargetView::Gitlab(_) => head,
        }
    }
}

/// The projects among the targets of entries.
pub open spec fn gitlab_targets(entries: Seq<EntryView>) -> Seq<Seq<char>>
    decreases entries.len(),
{
    if entries.len() == 0 {
        Seq::empty()
    } else {
        let head = gitlab_targets(entries.drop_last());
        match entries.last().target {
            TargetView::Github(_) => head,
            TargetView::Gitlab(project) => head.push(project),
        }
    }
}

/// The targets of the picked entries by forge: repositories and projects.
pub fn partition_removals(selected: &[WatchEntry]) -> (res: (Vec<&str>, Vec<&str>))
    ensures
        str_texts(res.0@) == github_targets(views(selected@)),
        str_texts(res.1@) == gitlab_targets(views(selected@)),
{
    let mut github: Vec<&str> = Vec::new();
    let mut gitlab: Vec<&str> = Vec::new();
    let ghost all = views(selected@);
    let mut i: usize = 0;
    assert(all.take(0) =~= Seq::empty());
    assert(str_texts(github@) =~= Seq::empty());
    assert(str_texts(gitlab@) =~= Seq::empty());
    while i < selected.len()
        invariant
            i <= selected@.len(),
            all == views(selected@),
            str_texts(github@) == github_targets(all.take(i as int)),
            str_texts(gitlab@) == gitlab_targets(all.take(i as int)),
        decreases selected@.len() - i,
    {
        let ghost had = (str_texts(github@), str_texts(gitlab@));
        assert(all.take(i + 1).drop_last() =~= all.take(i as int));
        assert(all.take(i + 1).last() == selected@[i as int]@);
        match &selected[i].target {
            Target::Github(repo) => {
                github.push(repo.as_str());
                assert(str_texts(github@) =~= had.0.push(repo@));
            },
            Target::Gitlab(project) => {
                gitlab.push(project.as_str());
                assert(str_texts(gitlab@) =~= had.1.push(project@));
            },
        }
        i = i + 1;
    }
    assert(all.take(i as int) =~= all);
    (github, gitlab)
}

/// "Is none of these" as a predicate value.
pub open spec fn none_of(gone: Seq<Seq<char>>) -> spec_fn(Seq<char>) -> bool {
    |name: Seq<char>| !gone.contains(name)
}

/// `names` without those in `gone`.
pub open spec fn without(names: Seq<Seq<char>>, gone: Seq<Seq<char>>) -> Seq<Seq<char>> {
    names.filter(none_of(gone))
}

fn holds(names: &Vec<&str>, name: &str) -> (res: bool)
    ensures
        res == str_texts(names@).contains(name@),
{
    let mut i: usize = 0;
    while i < names.len()
        invariant
            i <= names@.len(),
            forall|k: int| 0 <= k < i ==> (#[trigger] names@[k])@ != name@,
        decreases names@.len() - i,
    {
        if same(names[i], name) {
            assert(str_texts(names@)[i as int] == name@);
            return true;
        }
        i = i + 1;
    }
    assert forall|k: int| 0 <= k < str_texts(names@).len() implies #[trigger] str_texts(names@)[k]
        != name@ by {
        assert(names@[k]@ != name@);
    }
    false
}

fn keep_others(names: &Vec<String>, gone: &Vec<&str>) -> (res: Vec<String>)
    ensures
        texts(res@) == without(texts(names@), str_texts(gone@)),
{
    let ghost all = texts(names@);
    let ghost p = none_of(str_texts(gone@));
    let mut res: Vec<String> = Vec::new();
    let mut i: usize = 0;
    proof {
        reveal(Seq::filter);
    }
    assert(all.take(0) =~= Seq::empty());
    assert(texts(res@) =~= Seq::empty());
    while i < names.len()
        invariant
            i <= names@.len(),
            all == texts(names@),
            p == none_of(str_texts(gone@)),
            texts(res@) == all.take(i as int).filter(p),
        decreases names@.len() - i,
    {
        let ghost had = texts(res@);
        proof {
            reveal(Seq::filter);
        }
        assert(all.take(i + 1).drop_last() =~= all.take(i as int));
        assert(all.take(i + 1).last() == names@[i as int]@);
        if !holds(gone, names[i].as_str()) {
            res.push(names[i].clone());
            assert(texts(res@) =~= had.push(names@[i as int]@));
        }
        i = i + 1;
    }
    assert(all.take(i as int) =~= all);
    res
}

/// The configuration without what the picked entries point at.
pub open spec fn removed(cfg: ConfigView, selected: Seq<EntryView>) -> ConfigView {
    ConfigView {
        repos: without(cfg.repos, github_targets(selected)),
        gitlab: match cfg.gitlab {
            Some(gitlab) => Some(
                GitlabView {
                    projects: without(gitlab.projects, gitlab_targets(selected)),
                    ..gitlab
                },
            ),
            None => None,
        },
        ..cfg
    }
}

/// Ceases to watch what the picked entries point at.
pub fn apply_removals(cfg: &mut Config, selected: &Vec<WatchEntry>)
    ensures
        final(cfg)@ == removed(old(cfg)@, views(selected@)),
        taken_from(old(cfg)@, views(selected@), final(cfg)@),
{
    proof {
        only_what_was_picked_is_removed(cfg@, views(selected@));
    }
    let (github, gitlab) = partition_removals(selected.as_slice());
    cfg.repos = keep_others(&cfg.repos, &github);
    if let Some(section) = &mut cfg.gitlab {
        section.projects = keep_others(&section.projects, &gitlab);
    }
}

/// What `rm` reports.
pub open spec fn report(removed: nat) -> Seq<char> {
    if removed == 0 {
        "Nothing removed."@
    } else {
        "Removed "@ + decimal(removed) + " repo(s)."@
    }
}

/// What `rm` reports once `removed` entries were picked.
pub fn removal_report(removed: usize) -> (res: String)
    ensures
        res@ == report(removed as nat),
{
    if removed == 0 {
        return "Nothing removed.".to_owned();
    }
    let mut text = "Removed ".to_owned();
    text.append(decimal_of(removed as u64).as_str());
    text.append(" repo(s).");
    text
}

/// What is picked is watched no longer, and nothing else is lost.
pub proof fn removal_takes_what_was_picked(cfg: ConfigView, selected: Seq<EntryView>)
    ensures
        forall|repo: Seq<char>| #[trigger]
            removed(cfg, selected).repos.contains(repo) == (cfg.repos.contains(repo)
                && !github_targets(selected).contains(repo)),
        cfg.gitlab is None ==> removed(cfg, selected).gitlab is None,
        cfg.gitlab matches Some(gitlab) ==> removed(cfg, selected).gitlab is Some
            && forall|project: Seq<char>| #[trigger]
            (removed(cfg, selected).gitlab->0).projects.contains(project) == (
            gitlab.projects.contains(project) && !gitlab_targets(selected).contains(project)),
{
    without_keeps_the_rest(cfg.repos, github_targets(selected));
    if let Some(gitlab) = cfg.gitlab {
        without_keeps_the_rest(gitlab.projects, gitlab_targets(selected));
    }
}

proof fn without_keeps_the_rest(names: Seq<Seq<char>>, gone: Seq<Seq<char>>)
    ensures
        forall|name: Seq<char>| #[trigger]
            without(names, gone).contains(name) == (names.contains(name) && !gone.contains(name)),
    decreases names.len(),
{
    reveal(Seq::filter);
    if names.len() > 0 {
        let t = names.drop_last();
        without_keeps_the_rest(t, gone);
        let x = names.last();
        assert(names =~= t.push(x));
        assert forall|name: Seq<char>| #[trigger] without(names, gone).contains(name) == (
        names.contains(name) && !gone.contains(name)) by {
            assert(names.contains(name) == (t.contains(name) || name == x)) by {
                if t.contains(name) {
                    let i = choose|i: int| 0 <= i < t.len() && t[i] == name;
                    assert(names[i] == name);
                }
                if name == x {
                    assert(names[names.len() - 1] == name);
                }
            }
            let head = without(t, gone);
            if !gone.contains(x) {
                assert(without(names, gone) =~= head.push(x));
                assert(head.push(x).contains(name) == (head.contains(name) || name == x)) by {
                    if head.contains(name) {
                        let i = choose|i: int| 0 <= i < head.len() && head[i] == name;
                        assert(head.push(x)[i] == name);
                    }
                    if name == x {
                        assert(head.push(x)[head.len() as int] == name);
                    }
                }
            } else {
                assert(without(names, gone) =~= head);
            }
        }
    }
}

/// Picking projects alone leaves the repositories as they are, and picking repositories alone
/// leaves the projects as they are.
pub proof fn forges_are_kept_apart(cfg: ConfigView, selected: Seq<EntryView>)
    ensures
        (forall|i: int| 0 <= i < selected.len() ==> (#[trigger] selected[i]).target is Gitlab)
            ==> removed(cfg, selected).repos == cfg.repos,
        (forall|i: int| 0 <= i < selected.len() ==> (#[trigger] selected[i]).target is Github)
            ==> removed(cfg, selected).gitlab == cfg.gitlab,
{
    if forall|i: int| 0 <= i < selected.len() ==> (#[trigger] selected[i]).target is Gitlab {
        no_targets(selected);
        without_nothing(cfg.repos);
    }
    if forall|i: int| 0 <= i < selected.len() ==> (#[trigger] selected[i]).target is Github {
        no_targets(selected);
        if let Some(gitlab) = cfg.gitlab {
            without_nothing(gitlab.projects);
        }
    }
}

proof fn no_targets(selected: Seq<EntryView>)
    ensures
        (forall|i: int| 0 <= i < selected.len() ==> (#[trigger] selected[i]).target is Gitlab)
            ==> github_targets(selected) == Seq::<Seq<char>>::empty(),
        (forall|i: int| 0 <= i < selected.len() ==> (#[trigger] selected[i]).target is Github)
            ==> gitlab_targets(selected) == Seq::<Seq<char>>::empty(),
    decreases selected.len(),
{
    if selected.len() > 0 {
        let t = selected.drop_last();
        no_targets(t);
        assert forall|i: int| 0 <= i < t.len() implies #[trigger] t[i] == selected[i] by {}
        assert(selected.last() == selected[selected.len() - 1]);
    }
}

proof fn without_nothing(names: Seq<Seq<char>>)
    ensures
        without(names, Seq::empty()) == names,
    decreases names.len(),
{
    reveal(Seq::filter);
    if names.len() > 0 {
        without_nothing(names.drop_last());
        assert(names =~= names.drop_last().push(names.last()));
    }
}

} // verus!
