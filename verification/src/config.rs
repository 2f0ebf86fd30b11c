//! What to watch.
use vstd::prelude::*;
use vstd::string::*;

use crate::github::{cache_view, copy_cache, ForkCache};
use crate::text::{opt_str, opt_text, split, split_on, texts, trim, trimmed};

verus! {

broadcast use {vstd::string::group_string_axioms, vstd::std_specs::hash::group_hash_axioms};

/// The GitLab instance that is meant where none is named.
pub const DEFAULT_GITLAB_URL: &'static str = "https://gitlab.com";

/// The part of the configuration that concerns GitLab.
#[derive(Debug)]
pub struct GitlabConfig {
    /// The instance; blank for the public one.
    pub url: String,
    pub token: Option<String>,
    /// The group that projects were listed from last.
    pub group: Option<String>,
    /// The watched projects, by full path.
    pub projects: Vec<String>,
}

/// What a `GitlabConfig` says.
pub struct GitlabView {
    pub url: Seq<char>,
    pub token: Option<Seq<char>>,
    pub group: Option<Seq<char>>,
    pub projects: Seq<Seq<char>>,
}

impl View for GitlabConfig {
    type V = GitlabView;

    open spec fn view(&self) -> GitlabView {
        GitlabView {
            url: self.url@,
            token: opt_text(self.token),
            group: opt_text(self.group),
            projects: texts(self.projects@),
        }
    }
}

impl Default for GitlabConfig {
    fn default() -> (res: Self)
        ensures
            res@ == (GitlabView {
                url: Seq::empty(),
                token: None,
                group: None,
                projects: Seq::empty(),
            }),
    {
        let res = GitlabConfig {
            url: String::new(),
            token: None,
            group: None,
            projects: Vec::new(),
        };
        assert(res@.url =~= Seq::empty());
        assert(res@.projects =~= Seq::empty());
        res
    }
}

/// The address of the instance that `url` names: the public one where it is blank.
pub open spec fn instance_url(url: Seq<char>) -> Seq<char> {
    if trimmed(url).len() == 0 {
        DEFAULT_GITLAB_URL@
    } else {
        trimmed(url)
    }
}

pub(crate) fn copy_option(s: &Option<String>) -> (res: Option<String>)
    ensures
        opt_text(res) == opt_text(*s),
{
    match s {
        Some(s) => Some(s.clone()),
        None => None,
    }
}

pub(crate) fn copy_names(names: &Vec<String>) -> (res: Vec<String>)
    ensures
        texts(res@) == texts(names@),
{
    let mut res: Vec<String> = Vec::new();
    let mut i: usize = 0;
    while i < names.len()
        invariant
            i <= names@.len(),
            res@.len() == i,
            forall|k: int| 0 <= k < i ==> (#[trigger] res@[k])@ == names@[k]@,
        decreases names@.len() - i,
    {
        res.push(names[i].clone());
        i = i + 1;
    }
    assert(texts(res@) =~= texts(names@));
    res
}

impl Clone for GitlabConfig {
    fn clone(&self) -> (res: Self)
        ensures
            res@ == self@,
    {
        GitlabConfig {
            url: self.url.clone(),
            token: copy_option(&self.token),
            group: copy_option(&self.group),
            projects: copy_names(&self.projects),
        }
    }
}

impl GitlabConfig {
    /// The address of the instance: the public one where none is named.
    pub fn effective_url(&self) -> (res: &str)
        ensures
            res@ == instance_url(self.url@),
    {
        let url = trim(self.url.as_str());
        if url.is_empty() {
            DEFAULT_GITLAB_URL
        } else {
            url
        }
    }
}

/// The configuration.
#[derive(Debug)]
pub struct Config {
    /// The GitHub account that candidates are listed from.
    pub user: Option<String>,
    /// The watched GitHub repositories.
    pub repos: Vec<String>,
    pub theme: Option<String>,
    pub sort: Option<String>,
    /// What is known of forks. Found out by the program; an entry put in by hand stands.
    pub forks: ForkCache,
    pub gitlab: Option<GitlabConfig>,
}

/// What a `Config` says.
pub struct ConfigView {
    pub user: Option<Seq<char>>,
    pub repos: Seq<Seq<char>>,
    pub theme: Option<Seq<char>>,
    pub sort: Option<Seq<char>>,
    pub forks: Map<Seq<char>, Seq<char>>,
    pub gitlab: Option<GitlabView>,
}

impl View for Config {
    type V = ConfigView;

    open spec fn view(&self) -> ConfigView {
        ConfigView {
            user: opt_text(self.user),
            repos: texts(self.repos@),
            theme: opt_text(self.theme),
            sort: opt_text(self.sort),
            forks: cache_view(self.forks@),
            gitlab: match self.gitlab {
                Some(gitlab) => Some(gitlab@),
                None => None,
            },
        }
    }
}

impl Clone for Config {
    fn clone(&self) -> (res: Self)
        ensures
            res@ == self@,
    {
        let gitlab = match &self.gitlab {
            Some(gitlab) => Some(gitlab.clone()),
            None => None,
        };
        Config {
            user: copy_option(&self.user),
            repos: copy_names(&self.repos),
            theme: copy_option(&self.theme),
            sort: copy_option(&self.sort),
            forks: copy_cache(&self.forks),
            gitlab,
        }
    }
}

impl Default for Config {
    fn default() -> (res: Self)
        ensures
            res@ == (ConfigView {
                user: None,
                repos: Seq::empty(),
                theme: None,
                sort: None,
                forks: Map::empty(),
                gitlab: None,
            }),
    {
        let res = Config {
            user: None,
            repos: Vec::new(),
            theme: None,
            sort: None,
            forks: ForkCache::new(),
            gitlab: None,
        };
        assert(res@.repos =~= Seq::empty());
        assert(res@.forks =~= Map::empty());
        res
    }
}

/// The pieces that are not blank, without the white space around them.
pub open spec fn filled_in(pieces: Seq<Seq<char>>) -> Seq<Seq<char>>
    decreases pieces.len(),
{
    if pieces.len() == 0 {
        Seq::empty()
    } else {
        let head = filled_in(pieces.drop_last());
        if trimmed(pieces.last()).len() == 0 {
            head
        } else {
            head.push(trimmed(pieces.last()))
        }
    }
}

/// The repositories that a comma-separated list names; none where it names none.
pub open spec fn repos_override(raw: Option<Seq<char>>) -> Option<Seq<Seq<char>>> {
    match raw {
        Some(raw) => if filled_in(split(raw, ',')).len() == 0 {
            None
        } else {
            Some(filled_in(split(raw, ',')))
        },
        None => None,
    }
}

/// The repositories that `$GHPENDING_REPOS` names, of which `raw` is the value: a comma-separated
/// list, of which blanks are dropped. None where it names none.
pub fn repos_override_from_env(raw: Option<&str>) -> (res: Option<Vec<String>>)
    ensures
        match res {
            Some(repos) => repos_override(opt_str(raw)) == Some(texts(repos@)),
            None => repos_override(opt_str(raw)) is None,
        },
{
    let raw = match raw {
        Some(raw) => raw,
        None => return None,
    };
    let pieces = split_on(raw, ',');
    let ghost all = texts(pieces@);
    let mut repos: Vec<String> = Vec::new();
    let mut i: usize = 0;
    assert(all.take(0) =~= Seq::empty());
    assert(texts(repos@) =~= Seq::empty());
    while i < pieces.len()
        invariant
            i <= pieces@.len(),
            all == texts(pieces@),
            texts(repos@) == filled_in(all.take(i as int)),
        decreases pieces@.len() - i,
    {
        let ghost had = texts(repos@);
        assert(all.take(i + 1).drop_last() =~= all.take(i as int));
        assert(all.take(i + 1).last() == pieces@[i as int]@);
        let piece = trim(pieces[i].as_str());
        if !piece.is_empty() {
            repos.push(piece.to_owned());
            assert(texts(repos@) =~= had.push(piece@));
        }
        i = i + 1;
    }
    assert(all.take(i as int) =~= all);
    assert(texts(repos@).len() == repos@.len());
    if repos.len() == 0 {
        None
    } else {
        Some(repos)
    }
}

/// What the environment names are names: none is blank, and none has white space around it.
pub proof fn override_names_no_blank(raw: Option<Seq<char>>)
    ensures
        repos_override(raw) matches Some(repos) ==> repos.len() > 0 && forall|i: int|
            0 <= i < repos.len() ==> (#[trigger] repos[i]).len() > 0 && exists|piece: Seq<char>|
                repos[i] == #[trigger] trimmed(piece),
{
    if let Some(raw) = raw {
        filled_in_is_not_blank(split(raw, ','));
    }
}

proof fn filled_in_is_not_blank(pieces: Seq<Seq<char>>)
    ensures
        forall|i: int|
            0 <= i < filled_in(pieces).len() ==> (#[trigger] filled_in(pieces)[i]).len() > 0
                && exists|piece: Seq<char>| filled_in(pieces)[i] == #[trigger] trimmed(piece),
    decreases pieces.len(),
{
    if pieces.len() > 0 {
        filled_in_is_not_blank(pieces.drop_last());
        let head = filled_in(pieces.drop_last());
        assert forall|i: int| 0 <= i < filled_in(pieces).len() implies (
        #[trigger] filled_in(pieces)[i]).len() > 0 && exists|piece: Seq<char>|
            filled_in(pieces)[i] == #[trigger] trimmed(piece) by {
            if i < head.len() {
                assert(filled_in(pieces)[i] == head[i]);
            } else {
                assert(filled_in(pieces)[i] == trimmed(pieces.last()));
            }
        }
    }
}

} // verus!
