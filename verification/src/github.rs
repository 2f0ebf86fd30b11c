//! GitHub: what its answers mean in terms of the model, and what to ask next.
use std::collections::HashSet;

use vstd::prelude::*;
use vstd::string::*;

use crate::batch::absent_view;
use crate::clock::utc_now;
use crate::http_status::{status_line, HttpStatus};
use crate::laws::github::{
    candidates_are_what_was_listed, lists, speaks_of, subscriptions_want_their_numbers,
};
use crate::laws::items::{
    own_items_tell_of_their_entries, tell_of_lists, tell_of_upstream,
    upstream_items_tell_of_their_entries,
};
use crate::laws::order::ascending;
use crate::name_map::{map_of, NameMap};
use crate::order::{in_text_order, sort_names, sort_unique_names, without_repeats};
use crate::schedule::{
    empty_slots, fill, filled, results_follow_the_list, slot_views, well_named, Window,
};
use crate::text::{
    lower, same, same_ignoring_case, split, split_at_first, split_on, split_once, texts, to_lower,
    views,
};

pub use crate::model::{
    item_cmp, listed, sort_items, ErrorView, ItemKind, ItemView, RepoError, RepoItem, RepoResult,
    RepoStatus, ResultView, StatusView, Timestamp,
};

verus! {

broadcast use {vstd::string::group_string_axioms, vstd::std_specs::hash::group_hash_axioms};

/// The numbers of the items that the user subscribes to, by repository name in lower case.
pub type SubscribedItems = NameMap<HashSet<u64>>;

/// The upstream of each fork by the fork's name; empty where the repository is known to be no
/// fork. What is not in it has not been looked at.
pub type ForkCache = NameMap<String>;

/// Owner and name of a repository written `owner/name`. The name may hold further slashes.
pub open spec fn repo_parts(s: Seq<char>) -> Option<(Seq<char>, Seq<char>)> {
    match split_once(s, seq!['/']) {
        Some((owner, name)) => if owner.len() == 0 || name.len() == 0 {
            None
        } else {
            Some((owner, name))
        },
        None => None,
    }
}

/// Owner and name of a repository written `owner/name`.
pub fn split_repo(s: &str) -> (res: Option<(&str, &str)>)
    ensures
        match res {
            Some((owner, name)) => repo_parts(s@) == Some((owner@, name@)),
            None => repo_parts(s@) is None,
        },
{
    proof {
        reveal_strlit("/");
        assert("/"@ =~= seq!['/']);
    }
    match split_at_first(s, "/") {
        Some((owner, name)) => if owner.is_empty() || name.is_empty() {
            None
        } else {
            Some((owner, name))
        },
        None => None,
    }
}

/// Whether an account is a person's or an organization's.
#[derive(Debug, Clone, Copy, PartialEq, Eq, Structural)]
pub enum AccountKind {
    User,
    Organization,
}

/// Where the candidates for watching come from.
#[derive(Debug, PartialEq, Eq)]
pub enum ListSource {
    /// Everything that the token reaches, private repositories included.
    Authenticated,
    /// The repositories of an organization.
    Org(String),
    /// The public repositories of another user.
    PublicUser(String),
}

/// What a `ListSource` says.
pub enum SourceView {
    Authenticated,
    Org(Seq<char>),
    PublicUser(Seq<char>),
}

impl View for ListSource {
    type V = SourceView;

    open spec fn view(&self) -> SourceView {
        match self {
            ListSource::Authenticated => SourceView::Authenticated,
            ListSource::Org(name) => SourceView::Org(name@),
            ListSource::PublicUser(name) => SourceView::PublicUser(name@),
        }
    }
}

impl Clone for ListSource {
    fn clone(&self) -> (res: Self)
        ensures
            res@ == self@,
    {
        match self {
            ListSource::Authenticated => ListSource::Authenticated,
            ListSource::Org(name) => ListSource::Org(name.clone()),
            ListSource::PublicUser(name) => ListSource::PublicUser(name.clone()),
        }
    }
}

/// The kind of account that a profile of type `profile_type` belongs to.
pub open spec fn kind_of_type(profile_type: Seq<char>) -> AccountKind {
    if profile_type == "Organization"@ {
        AccountKind::Organization
    } else {
        AccountKind::User
    }
}

/// The kind of account that a profile of type `profile_type` belongs to: anything but
/// "Organization" is a user.
pub fn account_kind_from_type(profile_type: &str) -> (res: AccountKind)
    ensures
        res == kind_of_type(profile_type@),
{
    if same(profile_type, "Organization") {
        AccountKind::Organization
    } else {
        AccountKind::User
    }
}

/// Where the candidates come from: everything within reach for `--all` and for the user's own
/// account, an organization's repositories, or what another user shows.
pub open spec fn list_source(
    all: bool,
    username: Option<Seq<char>>,
    auth_login: Seq<char>,
    kind: Option<AccountKind>,
) -> SourceView {
    match username {
        Some(username) => if all || lower(username) == lower(auth_login) {
            SourceView::Authenticated
        } else if kind == Some(AccountKind::Organization) {
            SourceView::Org(username)
        } else {
            SourceView::PublicUser(username)
        },
        None => SourceView::Authenticated,
    }
}

/// Where the candidates come from. `auth_login` is the login that the token belongs to, `kind`
/// the kind of the account `username`.
pub fn resolve_list_source(
    all: bool,
    username: Option<&str>,
    auth_login: &str,
    kind: Option<AccountKind>,
) -> (res: ListSource)
    ensures
        res@ == list_source(all, crate::text::opt_str(username), auth_login@, kind),
{
    if all {
        return ListSource::Authenticated;
    }
    match username {
        None => ListSource::Authenticated,
        Some(username) => {
            if same_ignoring_case(username, auth_login) {
                return ListSource::Authenticated;
            }
            match kind {
                Some(AccountKind::Organization) => ListSource::Org(username.to_owned()),
                _ => ListSource::PublicUser(username.to_owned()),
            }
        },
    }
}

/// Why a request to the API failed.
#[derive(Debug)]
pub enum ApiFailure {
    /// GitHub answered with an error.
    Github { status: HttpStatus, message: String },
    /// There was no usable answer; the text says why.
    Other(String),
}

/// What an `ApiFailure` says.
pub enum FailureView {
    Github { status: u16, message: Seq<char> },
    Other(Seq<char>),
}

impl View for ApiFailure {
    type V = FailureView;

    open spec fn view(&self) -> FailureView {
        match self {
            ApiFailure::Github { status, message } => FailureView::Github {
                status: status.spec_code(),
                message: message@,
            },
            ApiFailure::Other(text) => FailureView::Other(text@),
        }
    }
}

impl ApiFailure {
    /// The status that GitHub answered with.
    pub fn status(&self) -> (res: Option<u16>)
        ensures
            res == failure_status(self@),
    {
        match self {
            ApiFailure::Github { status, .. } => Some(status.code()),
            ApiFailure::Other(_) => None,
        }
    }
}

/// The status that GitHub answered with.
pub open spec fn failure_status(failure: FailureView) -> Option<u16> {
    match failure {
        FailureView::Github { status, .. } => Some(status),
        FailureView::Other(_) => None,
    }
}

/// Why the items of a repository could not be had.
#[derive(Debug)]
pub enum GithubError {
    NotFound(String),
    Api(ApiFailure),
}

/// What a `GithubError` says.
pub enum GithubErrorView {
    NotFound(Seq<char>),
    Api(FailureView),
}

impl View for GithubError {
    type V = GithubErrorView;

    open spec fn view(&self) -> GithubErrorView {
        match self {
            GithubError::NotFound(label) => GithubErrorView::NotFound(label@),
            GithubError::Api(failure) => GithubErrorView::Api(failure@),
        }
    }
}

/// What the failure `failure` of a first request about `label` means: 404 is an absent
/// repository.
pub open spec fn github_error(failure: FailureView, label: Seq<char>) -> GithubErrorView {
    if failure_status(failure) == Some(404u16) {
        GithubErrorView::NotFound(label)
    } else {
        GithubErrorView::Api(failure)
    }
}

/// What the answer to a first request about `repo_label` means: 404 is an absent repository.
pub fn map_github_err<T>(res: Result<T, ApiFailure>, repo_label: &str) -> (out: Result<
    T,
    GithubError,
>)
    ensures
        match res {
            Ok(v) => out == Ok::<T, GithubError>(v),
            Err(e) => out matches Err(g) && g@ == github_error(e@, repo_label@),
        },
{
    match res {
        Ok(v) => Ok(v),
        Err(e) => {
            if let Some(404) = e.status() {
                Err(GithubError::NotFound(repo_label.to_owned()))
            } else {
                Err(GithubError::Api(e))
            }
        },
    }
}

/// The line that tells the user of an API failure.
pub open spec fn failure_message(failure: FailureView) -> Seq<char> {
    match failure {
        FailureView::Github { status, message } => {
            let told = "HTTP "@ + status_line(status) + " "@ + message;
            if status == 401 {
                told + " \u{2014} set GITHUB_TOKEN"@
            } else {
                told
            }
        },
        FailureView::Other(text) => text,
    }
}

/// The line that tells the user of an API failure, with the way out where the token is missing.
pub fn describe_api_error(e: &ApiFailure) -> (res: String)
    ensures
        res@ == failure_message(e@),
{
    match e {
        ApiFailure::Github { status, message } => {
            let mut told = "HTTP ".to_owned();
            told.append(status.text().as_str());
            told.append(" ");
            told.append(message.as_str());
            if status.code() == 401 {
                told.append(" \u{2014} set GITHUB_TOKEN");
            }
            told
        },
        ApiFailure::Other(text) => text.clone(),
    }
}

/// The login that the answer to "who am I" names: none where the token is refused.
pub open spec fn login_told(reply: Result<String, ApiFailure>) -> Result<
    Option<String>,
    ApiFailure,
> {
    match reply {
        Ok(login) => Ok(Some(login)),
        Err(e) => if failure_status(e@) == Some(401u16) {
            Ok(None)
        } else {
            Err(e)
        },
    }
}

/// The login that the answer to "who am I" names: none where the token is refused.
pub fn login_of(reply: Result<String, ApiFailure>) -> (res: Result<Option<String>, ApiFailure>)
    ensures
        res == login_told(reply),
{
    match reply {
        Ok(login) => Ok(Some(login)),
        Err(e) => if let Some(401) = e.status() {
            Ok(None)
        } else {
            Err(e)
        },
    }
}

/// What is known of the source of candidates once the login is: a source where `username` is the
/// user's own account, else nothing until the account's kind is known.
pub open spec fn source_known(auth_login: Option<Seq<char>>, username: Seq<char>) -> Option<
    SourceView,
> {
    match auth_login {
        Some(login) => if lower(login) == lower(username) {
            Some(SourceView::Authenticated)
        } else {
            None
        },
        None => None,
    }
}

/// The source of candidates for `username` once login and profile are known.
pub open spec fn source_told(
    auth_login: Option<Seq<char>>,
    username: Seq<char>,
    profile_type: Seq<char>,
) -> SourceView {
    list_source(
        false,
        Some(username),
        match auth_login {
            Some(login) => login,
            None => ""@,
        },
        Some(kind_of_type(profile_type)),
    )
}

/// What is known of the source of candidates once the login is: a source where `username` is the
/// user's own account, else nothing until the account's kind is known.
pub fn source_from_login(auth_login: Option<&str>, username: &str) -> (res: Option<ListSource>)
    ensures
        match res {
            Some(source) => source_known(crate::text::opt_str(auth_login), username@) == Some(
                source@,
            ),
            None => source_known(crate::text::opt_str(auth_login), username@) is None,
        },
{
    match auth_login {
        Some(login) => if same_ignoring_case(login, username) {
            Some(ListSource::Authenticated)
        } else {
            None
        },
        None => None,
    }
}

/// The source of candidates for `username` once login and profile are known.
pub fn source_from_profile(auth_login: Option<&str>, username: &str, profile_type: &str) -> (res:
    ListSource)
    ensures
        res@ == source_told(crate::text::opt_str(auth_login), username@, profile_type@),
{
    let login = match auth_login {
        Some(login) => login,
        None => "",
    };
    resolve_list_source(
        false,
        Some(username),
        login,
        Some(account_kind_from_type(profile_type)),
    )
}

/// The names that are there.
pub open spec fn present(names: Seq<Option<String>>) -> Seq<Seq<char>>
    decreases names.len(),
{
    if names.len() == 0 {
        Seq::empty()
    } else {
        match names.last() {
            Some(name) => present(names.drop_last()).push(name@),
            None => present(names.drop_last()),
        }
    }
}

fn present_names(names: &Vec<Option<String>>) -> (res: Vec<String>)
    ensures
        texts(res@) == present(names@),
{
    let mut res: Vec<String> = Vec::new();
    let mut i: usize = 0;
    assert(names@.take(0) =~= Seq::empty());
    assert(texts(res@) =~= Seq::empty());
    while i < names.len()
        invariant
            i <= names.len(),
            texts(res@) == present(names@.take(i as int)),
        decreases names.len() - i,
    {
        assert(names@.take(i + 1).drop_last() == names@.take(i as int));
        assert(names@.take(i + 1).last() == names@[i as int]);
        let ghost had = texts(res@);
        if let Some(name) = &names[i] {
            res.push(name.clone());
            assert(texts(res@) == had.push(name@));
        }
        i = i + 1;
    }
    assert(names@.take(i as int) == names@);
    res
}

/// The repository names of a listing of a user's or an organization's repositories.
pub open spec fn listed_candidates(full_names: Seq<Option<String>>) -> Seq<Seq<char>> {
    in_text_order(present(full_names))
}

/// The repository names of a listing of all that the token reaches, each once.
pub open spec fn reachable_candidates(full_names: Seq<Option<String>>) -> Seq<Seq<char>> {
    without_repeats(in_text_order(present(full_names)))
}

/// The repository names of a listing of a user's or an organization's repositories.
pub fn listed_repo_names(full_names: &Vec<Option<String>>) -> (res: Vec<String>)
    ensures
        texts(res@) == listed_candidates(full_names@),
        forall|name: Seq<char>| #[trigger]
            texts(res@).contains(name) == lists(full_names@, name),
{
    proof {
        candidates_are_what_was_listed(full_names@);
    }
    sort_names(present_names(full_names))
}

/// The repository names of a listing of all that the token reaches, in which one may come twice.
pub fn reachable_repo_names(full_names: &Vec<Option<String>>) -> (res: Vec<String>)
    ensures
        texts(res@) == reachable_candidates(full_names@),
        ascending(texts(res@)),
        forall|name: Seq<char>| #[trigger]
            texts(res@).contains(name) == lists(full_names@, name),
{
    proof {
        candidates_are_what_was_listed(full_names@);
    }
    sort_unique_names(present_names(full_names))
}

/// An entry of the list of issues and pull requests that the user subscribes to.
#[derive(Debug)]
pub struct SubscribedIssue {
    pub number: u64,
    pub repository_url: String,
}

/// The repository that an API address speaks of: owner and name behind "/repos/", in lower case.
pub open spec fn repo_of_api_url(url: Seq<char>) -> Option<Seq<char>> {
    match split_once(url, "/repos/"@) {
        Some((_, path)) => {
            let segments = split(path, '/');
            if segments.len() >= 2 && segments[0].len() > 0 && segments[1].len() > 0 {
                Some(lower(segments[0] + seq!['/'] + segments[1]))
            } else {
                None
            }
        },
        None => None,
    }
}

/// The repository that an API address speaks of.
pub fn repo_name_from_api_url(url: &str) -> (res: Option<String>)
    ensures
        crate::text::opt_text(res) == repo_of_api_url(url@),
{
    match split_at_first(url, "/repos/") {
        Some((_, path)) => {
            let segments = split_on(path, '/');
            assert(texts(segments@).len() == segments@.len());
            if segments.len() < 2 {
                return None;
            }
            assert(texts(segments@)[0] == segments@[0]@);
            assert(texts(segments@)[1] == segments@[1]@);
            if segments[0].as_str().is_empty() || segments[1].as_str().is_empty() {
                return None;
            }
            let mut name = segments[0].clone();
            name.push('/');
            name.append(segments[1].as_str());
            assert(name@ == segments@[0]@ + seq!['/'] + segments@[1]@);
            Some(to_lower(name.as_str()))
        },
        None => None,
    }
}

/// The repository of a subscription.
pub open spec fn subscribed_repo(issue: SubscribedIssue) -> Option<Seq<char>> {
    repo_of_api_url(issue.repository_url@)
}

/// Whether `items` holds the numbers of `issues` by repository, and nothing else.
pub open spec fn indexes(items: SubscribedItems, issues: Seq<SubscribedIssue>) -> bool {
    &&& forall|repo: Seq<char>| #[trigger]
        items@.contains_key(repo) <==> exists|i: int|
            0 <= i < issues.len() && #[trigger] subscribed_repo(issues[i]) == Some(repo)
    &&& forall|repo: Seq<char>, number: u64|
        items@.contains_key(repo) ==> (#[trigger] items@[repo]@.contains(number) <==> exists|i: int|
            0 <= i < issues.len() && #[trigger] subscribed_repo(issues[i]) == Some(repo)
                && issues[i].number == number)
}

/// The subscriptions by repository. Those whose address names no repository are left out.
pub fn index_subscribed_items(issues: Vec<SubscribedIssue>) -> (res: SubscribedItems)
    ensures
        indexes(res, issues@),
        forall|repo: Seq<char>, number: u64|
            #![trigger (wanted_numbers(Some(&res), repo)->0).contains(number)]
            (wanted_numbers(Some(&res), repo)->0).contains(number) <==> exists|i: int|
                0 <= i < issues@.len() && speaks_of((#[trigger] issues@[i]).repository_url@, repo)
                    && issues@[i].number == number,
        forall|repo: Seq<char>| #[trigger]
            res@.contains_key(repo) <==> exists|i: int|
                0 <= i < issues@.len() && #[trigger] subscribed_repo(issues@[i]) == Some(repo),
        forall|repo: Seq<char>, number: u64|
            res@.contains_key(repo) ==> (#[trigger] res@[repo]@.contains(number)
                <==> exists|i: int|
                0 <= i < issues@.len() && #[trigger] subscribed_repo(issues@[i]) == Some(repo)
                    && issues@[i].number == number),
{
    let mut res = SubscribedItems::new();
    let mut i: usize = 0;
    while i < issues.len()
        invariant
            i <= issues@.len(),
            forall|repo: Seq<char>| #[trigger]
                res@.contains_key(repo) <==> exists|k: int|
                    0 <= k < i && #[trigger] subscribed_repo(issues@[k]) == Some(repo),
            forall|repo: Seq<char>, number: u64|
                res@.contains_key(repo) ==> (#[trigger] res@[repo]@.contains(number)
                    <==> exists|k: int|
                    0 <= k < i && #[trigger] subscribed_repo(issues@[k]) == Some(repo)
                        && issues@[k].number == number),
        decreases issues@.len() - i,
    {
        let ghost had = res@;
        let number = issues[i].number;
        if let Some(repo) = repo_name_from_api_url(issues[i].repository_url.as_str()) {
            let ghost key = repo@;
            assert(subscribed_repo(issues@[i as int]) == Some(key));
            match res.get_mut(repo.as_str()) {
                Some(numbers) => {
                    numbers.insert(number);
                },
                None => {
                    let mut numbers: HashSet<u64> = HashSet::new();
                    numbers.insert(number);
                    res.insert(repo, numbers);
                },
            }
            assert forall|r: Seq<char>, n: u64| res@.contains_key(r) implies (
            #[trigger] res@[r]@.contains(n) <==> exists|k: int|
                0 <= k < i + 1 && #[trigger] subscribed_repo(issues@[k]) == Some(r)
                    && issues@[k].number == n) by {
                if r == key {
                    assert(res@[r]@.contains(n) <==> n == number || (had.contains_key(r)
                        && had[r]@.contains(n)));
                } else {
                    assert(had.contains_key(r));
                    assert(had[r]@.contains(n) <==> res@[r]@.contains(n));
                }
            }
            assert forall|r: Seq<char>| #[trigger] res@.contains_key(r) <==> exists|k: int|
                0 <= k < i + 1 && #[trigger] subscribed_repo(issues@[k]) == Some(r) by {
                assert(res@.contains_key(r) <==> r == key || had.contains_key(r));
            }
        } else {
            assert(subscribed_repo(issues@[i as int]) is None);
        }
        i = i + 1;
    }
    assert(indexes(res, issues@));
    assert forall|repo: Seq<char>, number: u64|
        #![trigger (wanted_numbers(Some(&res), repo)->0).contains(number)]
        (wanted_numbers(Some(&res), repo)->0).contains(number) <==> exists|i: int|
            0 <= i < issues@.len() && speaks_of((#[trigger] issues@[i]).repository_url@, repo)
                && issues@[i].number == number by {
        subscriptions_want_their_numbers(&res, issues@, repo, number);
    }
    res
}

/// The numbers that the subscriptions leave of `repo`: all where there are no subscriptions to
/// go by, `none` where they hold nothing of it.
pub open spec fn numbers_or(
    subscribed: Option<&SubscribedItems>,
    repo: Seq<char>,
    none: Set<u64>,
) -> Option<Set<u64>> {
    match subscribed {
        Some(items) => Some(
            if items@.contains_key(lower(repo)) {
                items@[lower(repo)]@
            } else {
                none
            },
        ),
        None => None,
    }
}

/// The numbers that the subscriptions leave of `repo`: all where there are no subscriptions to
/// go by, not one where they hold nothing of it.
pub open spec fn wanted_numbers(
    subscribed: Option<&SubscribedItems>,
    repo: Seq<char>,
) -> Option<Set<u64>> {
    numbers_or(subscribed, repo, Set::empty())
}

/// The set behind an optional reference.
pub open spec fn opt_set(numbers: Option<&HashSet<u64>>) -> Option<Set<u64>> {
    match numbers {
        Some(numbers) => Some(numbers@),
        None => None,
    }
}

/// The numbers that the subscriptions leave of `repo`: all where there are no subscriptions to
/// go by, `none` where they hold nothing of it.
pub fn numbers_of<'a>(
    subscribed: Option<&'a SubscribedItems>,
    repo: &str,
    none: &'a HashSet<u64>,
) -> (res: Option<&'a HashSet<u64>>)
    ensures
        opt_set(res) == numbers_or(subscribed, repo@, none@),
{
    match subscribed {
        Some(items) => match items.get(to_lower(repo).as_str()) {
            Some(numbers) => Some(numbers),
            None => Some(none),
        },
        None => None,
    }
}

/// "Has one of these numbers" as a predicate value.
pub open spec fn numbered_in(numbers: Set<u64>) -> spec_fn(ItemView) -> bool {
    |item: ItemView| numbers.contains(item.number)
}

/// The items with one of `numbers`; all where there is no such set.
pub open spec fn retained(items: Seq<ItemView>, numbers: Option<Set<u64>>) -> Seq<ItemView> {
    match numbers {
        Some(numbers) => items.filter(numbered_in(numbers)),
        None => items,
    }
}

/// Keeps the items with one of `subscribed_numbers`; all where there is no such set.
pub fn retain_subscribed(items: &mut Vec<RepoItem>, subscribed_numbers: Option<&HashSet<u64>>)
    ensures
        views(final(items)@) == retained(views(old(items)@), opt_set(subscribed_numbers)),
        subscribed_numbers matches Some(numbers) ==> views(final(items)@) == views(
            old(items)@,
        ).filter(|item: ItemView| numbers@.contains(item.number)),
        subscribed_numbers is None ==> views(final(items)@) == views(old(items)@),
{
    if let Some(numbers) = subscribed_numbers {
        let ghost all = views(items@);
        let ghost p = numbered_in(numbers@);
        let mut i: usize = 0;
        let ghost mut j: int = 0;
        assert(all.take(0) =~= Seq::empty());
        assert(views(items@).take(0) =~= Seq::empty());
        assert(all.skip(0) =~= all);
        assert(views(items@).skip(0) =~= all);
        proof {
            reveal(Seq::filter);
        }
        while i < items.len()
            invariant
                i <= items@.len(),
                0 <= j <= all.len(),
                items@.len() - i == all.len() - j,
                p == numbered_in(numbers@),
                views(items@).take(i as int) == all.take(j).filter(p),
                views(items@).skip(i as int) == all.skip(j),
            decreases items@.len() - i,
        {
            let ghost now = views(items@);
            assert(now.skip(i as int)[0] == all.skip(j)[0]);
            assert(items@[i as int]@ == all[j]);
            assert(all.take(j + 1).drop_last() == all.take(j));
            assert(all.take(j + 1).last() == all[j]);
            proof {
                reveal(Seq::filter);
            }
            if numbers.contains(&items[i].number) {
                assert(now.take(i + 1) == now.take(i as int).push(all[j]));
                assert(now.skip(i + 1) =~= now.skip(i as int).drop_first());
                assert(all.skip(j + 1) =~= all.skip(j).drop_first());
                i = i + 1;
            } else {
                items.remove(i);
                assert(views(items@) =~= now.remove(i as int));
                assert(views(items@).take(i as int) =~= now.take(i as int));
                assert(views(items@).skip(i as int) =~= now.skip(i as int).drop_first());
                assert(all.skip(j + 1) =~= all.skip(j).drop_first());
            }
            proof {
                j = j + 1;
            }
        }
        assert(all.take(j) == all);
        assert(views(items@).take(i as int) == views(items@));
        assert(p =~= (|item: ItemView| numbers@.contains(item.number)));
    }
}

/// How long one repository's fetch, and a whole batch of them, may take.
pub const FETCH_TIMEOUT_SECS: u64 = 30;

/// An entry of a repository's list of issues, which holds its pull requests too.
#[derive(Debug)]
pub struct RestIssue {
    pub number: u64,
    pub title: String,
    pub created_at: Timestamp,
    pub updated_at: Timestamp,
    pub author: String,
    pub comments: u32,
    pub is_pull_request: bool,
}

/// An entry of a repository's list of pull requests. What it lacks is filled in.
#[derive(Debug)]
pub struct RestPull {
    pub number: u64,
    pub title: Option<String>,
    pub created_at: Option<Timestamp>,
    pub updated_at: Option<Timestamp>,
    pub author: Option<String>,
    pub draft: Option<bool>,
}

/// The login that stands for a deleted account.
pub open spec fn ghost_login() -> Seq<char> {
    "ghost"@
}

/// The item that an issue of a repository's own list makes.
pub open spec fn issue_view(issue: RestIssue) -> ItemView {
    ItemView {
        kind: ItemKind::Issue,
        number: issue.number,
        title: issue.title@,
        created_at: issue.created_at,
        updated_at: issue.updated_at,
        author: issue.author@,
        pr_draft: None,
        comments: None,
        review_decision: None,
        mine: false,
    }
}

/// The item that an entry of an upstream's list makes.
pub open spec fn upstream_view(issue: RestIssue) -> ItemView {
    ItemView {
        kind: if issue.is_pull_request {
            ItemKind::PullRequest
        } else {
            ItemKind::Issue
        },
        comments: Some(issue.comments as u64),
        ..issue_view(issue)
    }
}

/// The item that a pull request makes. `now` stands in where it has no time at all.
pub open spec fn pull_view(pull: RestPull, now: Timestamp) -> ItemView {
    let created_at = match (pull.created_at, pull.updated_at) {
        (Some(at), _) => at,
        (None, Some(at)) => at,
        (None, None) => now,
    };
    ItemView {
        kind: ItemKind::PullRequest,
        number: pull.number,
        title: match pull.title {
            Some(title) => title@,
            None => Seq::empty(),
        },
        created_at,
        updated_at: match pull.updated_at {
            Some(at) => at,
            None => created_at,
        },
        author: match pull.author {
            Some(login) => login@,
            None => ghost_login(),
        },
        pr_draft: pull.draft,
        comments: None,
        review_decision: None,
        mine: false,
    }
}

/// The items of the issues in a repository's own list; its pull requests come from their own.
pub open spec fn issue_items(issues: Seq<RestIssue>) -> Seq<ItemView>
    decreases issues.len(),
{
    if issues.len() == 0 {
        Seq::empty()
    } else if issues.last().is_pull_request {
        issue_items(issues.drop_last())
    } else {
        issue_items(issues.drop_last()).push(issue_view(issues.last()))
    }
}

/// The items of the pull requests; `clock` holds the instant at which each was looked at.
pub open spec fn pull_items(pulls: Seq<RestPull>, clock: Seq<Timestamp>) -> Seq<ItemView> {
    Seq::new(pulls.len(), |i: int| pull_view(pulls[i], clock[i]))
}

/// A repository's items: its issues and pull requests, as far as they are wanted, in the order
/// of the listing.
pub open spec fn rest_listing(
    issues: Seq<RestIssue>,
    pulls: Seq<RestPull>,
    clock: Seq<Timestamp>,
    numbers: Option<Set<u64>>,
) -> Seq<ItemView> {
    listed(retained(issue_items(issues) + pull_items(pulls, clock), numbers))
}

/// A fork's items at its upstream, in the order of the listing.
pub open spec fn upstream_listing(issues: Seq<RestIssue>) -> Seq<ItemView> {
    listed(issues.map_values(|issue: RestIssue| upstream_view(issue)))
}

/// Where every pull request has a time, the listing does not depend on when it was made.
pub proof fn listing_ignores_the_clock(
    issues: Seq<RestIssue>,
    pulls: Seq<RestPull>,
    one: Seq<Timestamp>,
    other: Seq<Timestamp>,
    numbers: Option<Set<u64>>,
)
    requires
        forall|i: int|
            0 <= i < pulls.len() ==> (#[trigger] pulls[i]).created_at is Some
                || pulls[i].updated_at is Some,
    ensures
        rest_listing(issues, pulls, one, numbers) == rest_listing(issues, pulls, other, numbers),
{
    assert(pull_items(pulls, one) =~= pull_items(pulls, other));
}

fn issue_item(issue: &RestIssue) -> (res: RepoItem)
    ensures
        res@ == issue_view(*issue),
{
    RepoItem {
        kind: ItemKind::Issue,
        number: issue.number,
        title: issue.title.clone(),
        created_at: issue.created_at,
        updated_at: issue.updated_at,
        author: issue.author.clone(),
        pr_draft: None,
        comments: None,
        review_decision: None,
        mine: false,
    }
}

/// The item that an entry of an upstream's list makes.
pub fn upstream_item(issue: &RestIssue) -> (res: RepoItem)
    ensures
        res@ == upstream_view(*issue),
{
    let kind = if issue.is_pull_request {
        ItemKind::PullRequest
    } else {
        ItemKind::Issue
    };
    let mut item = issue_item(issue);
    item.kind = kind;
    item.comments = Some(issue.comments as u64);
    item
}

/// The item that a pull request makes. `now` stands in where it has no time at all.
pub fn pull_item(pull: &RestPull, now: Timestamp) -> (res: RepoItem)
    ensures
        res@ == pull_view(*pull, now),
{
    let created_at = match (pull.created_at, pull.updated_at) {
        (Some(at), _) => at,
        (None, Some(at)) => at,
        (None, None) => now,
    };
    let updated_at = match pull.updated_at {
        Some(at) => at,
        None => created_at,
    };
    let title = match &pull.title {
        Some(title) => title.clone(),
        None => String::new(),
    };
    let author = match &pull.author {
        Some(login) => login.clone(),
        None => "ghost".to_owned(),
    };
    RepoItem {
        kind: ItemKind::PullRequest,
        number: pull.number,
        title,
        created_at,
        updated_at,
        author,
        pr_draft: pull.draft,
        comments: None,
        review_decision: None,
        mine: false,
    }
}

/// A repository's items as far as they are wanted, in the order of the listing.
pub fn rest_items(
    issues: &Vec<RestIssue>,
    pulls: &Vec<RestPull>,
    subscribed_numbers: Option<&HashSet<u64>>,
) -> (res: Vec<RepoItem>)
    ensures
        exists|clock: Seq<Timestamp>|
            clock.len() == pulls@.len() && views(res@) == #[trigger] rest_listing(
                issues@,
                pulls@,
                clock,
                opt_set(subscribed_numbers),
            ),
        tell_of_lists(views(res@), issues@, pulls@, opt_set(subscribed_numbers)),
{
    let mut items: Vec<RepoItem> = Vec::new();
    let mut i: usize = 0;
    assert(issues@.take(0) =~= Seq::empty());
    assert(views(items@) =~= Seq::empty());
    while i < issues.len()
        invariant
            i <= issues@.len(),
            views(items@) == issue_items(issues@.take(i as int)),
        decreases issues@.len() - i,
    {
        assert(issues@.take(i + 1).drop_last() == issues@.take(i as int));
        assert(issues@.take(i + 1).last() == issues@[i as int]);
        let ghost had = views(items@);
        if !issues[i].is_pull_request {
            items.push(issue_item(&issues[i]));
            assert(views(items@) == had.push(issue_view(issues@[i as int])));
        }
        i = i + 1;
    }
    assert(issues@.take(i as int) == issues@);
    let ghost of_issues = views(items@);
    let ghost mut clock: Seq<Timestamp> = Seq::empty();
    let mut j: usize = 0;
    assert(of_issues + pull_items(pulls@.take(0), clock) =~= of_issues);
    while j < pulls.len()
        invariant
            j <= pulls@.len(),
            clock.len() == j,
            views(items@) == of_issues + pull_items(pulls@.take(j as int), clock),
        decreases pulls@.len() - j,
    {
        let ghost had = views(items@);
        // the clock is read only where the answer tells no time
        let now = match (pulls[j].created_at, pulls[j].updated_at) {
            (Some(at), _) => at,
            (None, Some(at)) => at,
            (None, None) => utc_now(),
        };
        items.push(pull_item(&pulls[j], now));
        assert(views(items@) == had.push(pull_view(pulls@[j as int], now)));
        assert(pull_items(pulls@.take(j + 1), clock.push(now)) =~= pull_items(
            pulls@.take(j as int),
            clock,
        ).push(pull_view(pulls@[j as int], now)));
        proof {
            clock = clock.push(now);
        }
        j = j + 1;
    }
    assert(pulls@.take(j as int) == pulls@);
    retain_subscribed(&mut items, subscribed_numbers);
    let items = sort_items(items);
    assert(views(items@) == rest_listing(issues@, pulls@, clock, opt_set(subscribed_numbers)));
    proof {
        own_items_tell_of_their_entries(issues@, pulls@, clock, opt_set(subscribed_numbers));
    }
    items
}

/// A fork's items at its upstream, in the order of the listing.
pub fn upstream_items(issues: &Vec<RestIssue>) -> (res: Vec<RepoItem>)
    ensures
        views(res@) == upstream_listing(issues@),
        tell_of_upstream(views(res@), issues@),
{
    proof {
        upstream_items_tell_of_their_entries(issues@);
    }
    let mut items: Vec<RepoItem> = Vec::new();
    let mut i: usize = 0;
    while i < issues.len()
        invariant
            i <= issues@.len(),
            items@.len() == i,
            forall|k: int| 0 <= k < i ==> (#[trigger] items@[k])@ == upstream_view(issues@[k]),
        decreases issues@.len() - i,
    {
        items.push(upstream_item(&issues[i]));
        i = i + 1;
    }
    assert(views(items@) =~= issues@.map_values(|issue: RestIssue| upstream_view(issue)));
    sort_items(items)
}

/// What comes of the two first pages of a repository: a failure of the issues is told before one
/// of the pull requests.
pub open spec fn pages_had<A, B>(
    issues: Result<A, ApiFailure>,
    pulls: Result<B, ApiFailure>,
    label: Seq<char>,
) -> Result<(A, B), GithubErrorView> {
    match (issues, pulls) {
        (Err(e), _) => Err(github_error(e@, label)),
        (Ok(_), Err(e)) => Err(github_error(e@, label)),
        (Ok(a), Ok(b)) => Ok((a, b)),
    }
}

/// What comes of the two first pages of a repository: a failure of the issues is told before one
/// of the pull requests.
pub fn first_pages<A, B>(
    issues: Result<A, ApiFailure>,
    pulls: Result<B, ApiFailure>,
    label: &str,
) -> (res: Result<(A, B), GithubError>)
    ensures
        match pages_had(issues, pulls, label@) {
            Ok(pages) => res == Ok::<(A, B), GithubError>(pages),
            Err(e) => res matches Err(g) && g@ == e,
        },
{
    match map_github_err(issues, label) {
        Ok(a) => match map_github_err(pulls, label) {
            Ok(b) => Ok((a, b)),
            Err(e) => Err(e),
        },
        Err(e) => Err(e),
    }
}

/// What fails of all pages of a repository: the issues before the pull requests.
pub open spec fn later_failure<A, B>(
    issues: Result<A, ApiFailure>,
    pulls: Result<B, ApiFailure>,
) -> Option<GithubError> {
    match (issues, pulls) {
        (Err(e), _) => Some(GithubError::Api(e)),
        (Ok(_), Err(e)) => Some(GithubError::Api(e)),
        _ => None,
    }
}

/// What comes of all pages of a repository. Behind the first page a failure is never an absent
/// repository.
pub fn own_outcome(
    issues: Result<Vec<RestIssue>, ApiFailure>,
    pulls: Result<Vec<RestPull>, ApiFailure>,
    subscribed_numbers: Option<&HashSet<u64>>,
) -> (res: Result<Vec<RepoItem>, GithubError>)
    ensures
        later_failure(issues, pulls) matches Some(e) ==> res == Err::<Vec<RepoItem>, GithubError>(e),
        match (issues, pulls) {
            (Err(e), _) => res == Err::<Vec<RepoItem>, GithubError>(GithubError::Api(e)),
            (Ok(_), Err(e)) => res == Err::<Vec<RepoItem>, GithubError>(GithubError::Api(e)),
            (Ok(issues), Ok(pulls)) => res matches Ok(items) && exists|clock: Seq<Timestamp>|
                clock.len() == pulls@.len() && views(items@) == #[trigger] rest_listing(
                    issues@,
                    pulls@,
                    clock,
                    opt_set(subscribed_numbers),
                ),
        },
        issues is Ok && pulls is Ok ==> res is Ok && tell_of_lists(
            views(res->Ok_0@),
            issues->Ok_0@,
            pulls->Ok_0@,
            opt_set(subscribed_numbers),
        ),
{
    match issues {
        Ok(issues) => match pulls {
            Ok(pulls) => Ok(rest_items(&issues, &pulls, subscribed_numbers)),
            Err(e) => Err(GithubError::Api(e)),
        },
        Err(e) => Err(GithubError::Api(e)),
    }
}

/// What comes of all pages of an upstream.
pub fn upstream_outcome(issues: Result<Vec<RestIssue>, ApiFailure>) -> (res: Result<
    Vec<RepoItem>,
    GithubError,
>)
    ensures
        match issues {
            Ok(issues) => res matches Ok(items) && views(items@) == upstream_listing(issues@),
            Err(e) => res == Err::<Vec<RepoItem>, GithubError>(GithubError::Api(e)),
        },
        later_failure(issues, Ok::<(), ApiFailure>(())) matches Some(e) ==> res == Err::<
            Vec<RepoItem>,
            GithubError,
        >(e),
        issues is Ok ==> res is Ok && tell_of_upstream(views(res->Ok_0@), issues->Ok_0@),
{
    match issues {
        Ok(issues) => Ok(upstream_items(&issues)),
        Err(e) => Err(GithubError::Api(e)),
    }
}

/// Owner and name of the upstream of a fork; where it is no such pair, there is nothing to find.
pub open spec fn upstream_named(upstream: Seq<char>) -> Result<
    (Seq<char>, Seq<char>),
    GithubErrorView,
> {
    match repo_parts(upstream) {
        Some(parts) => Ok(parts),
        None => Err(GithubErrorView::NotFound(upstream)),
    }
}

/// Owner and name of the upstream of a fork; where it is no such pair, there is nothing to find.
pub fn upstream_parts(upstream: &str) -> (res: Result<(&str, &str), GithubError>)
    ensures
        match res {
            Ok((owner, name)) => upstream_named(upstream@) == Ok::<
                (Seq<char>, Seq<char>),
                GithubErrorView,
            >((owner@, name@)),
            Err(e) => upstream_named(upstream@) == Err::<(Seq<char>, Seq<char>), GithubErrorView>(
                e@,
            ),
        },
{
    match split_repo(upstream) {
        Some(parts) => Ok(parts),
        None => Err(GithubError::NotFound(upstream.to_owned())),
    }
}

/// How the fetch of a repository ended.
pub open spec fn status_of(outcome: Result<Vec<RepoItem>, GithubError>) -> StatusView {
    match outcome {
        Ok(items) => StatusView::Items(views(items@)),
        Err(GithubError::NotFound(_)) => StatusView::NotFound,
        Err(GithubError::Api(e)) => StatusView::Error(ErrorView::Api(failure_message(e@))),
    }
}

fn repo_status(outcome: Result<Vec<RepoItem>, GithubError>) -> (res: RepoStatus)
    ensures
        res@ == status_of(outcome),
{
    match outcome {
        Ok(items) => RepoStatus::Items(items),
        Err(GithubError::NotFound(_)) => RepoStatus::NotFound,
        Err(GithubError::Api(e)) => RepoStatus::Error(RepoError::Api(describe_api_error(&e))),
    }
}

/// What is told of a repository whose items were asked for, at `upstream` where there is one.
pub open spec fn told_of(
    repo: Seq<char>,
    upstream: Option<Seq<char>>,
    outcome: Result<Vec<RepoItem>, GithubError>,
) -> ResultView {
    ResultView { repo, status: status_of(outcome), upstream }
}

/// The result of a repository whose own items were asked for.
pub fn own_result(repo: &str, outcome: Result<Vec<RepoItem>, GithubError>) -> (res: RepoResult)
    ensures
        res@ == told_of(repo@, None, outcome),
{
    RepoResult::new(repo.to_owned(), repo_status(outcome))
}

/// The result of a fork whose items at `upstream` were asked for.
pub fn upstream_result(
    repo: &str,
    upstream: &str,
    outcome: Result<Vec<RepoItem>, GithubError>,
) -> (res: RepoResult)
    ensures
        res@ == told_of(repo@, Some(upstream@), outcome),
{
    RepoResult::new(repo.to_owned(), repo_status(outcome)).with_upstream(upstream.to_owned())
}

/// What to ask about a repository.
#[derive(Debug)]
pub enum RepoPlan {
    /// Nothing: its name names none.
    Absent,
    /// Its own items.
    Own,
    /// The items of its owner at this upstream.
    Upstream(String),
    /// First whether it is a fork.
    Detect,
}

/// What a `RepoPlan` says.
pub enum PlanView {
    Absent,
    Own,
    Upstream(Seq<char>),
    Detect,
}

impl View for RepoPlan {
    type V = PlanView;

    open spec fn view(&self) -> PlanView {
        match self {
            RepoPlan::Absent => PlanView::Absent,
            RepoPlan::Own => PlanView::Own,
            RepoPlan::Upstream(upstream) => PlanView::Upstream(upstream@),
            RepoPlan::Detect => PlanView::Detect,
        }
    }
}

/// What is known of forks, as texts.
pub open spec fn cache_view(forks: Map<Seq<char>, String>) -> Map<Seq<char>, Seq<char>> {
    forks.map_values(|upstream: String| upstream@)
}

/// A copy of what is known of forks.
pub(crate) fn copy_cache(cache: &ForkCache) -> (res: ForkCache)
    ensures
        cache_view(res@) == cache_view(cache@),
{
    let mut res = ForkCache::new();
    let entries = cache.entries();
    let mut i: usize = 0;
    assert(entries@.take(0) =~= Seq::empty());
    assert(cache_view(res@) =~= cache_view(map_of(entries@.take(0))));
    while i < entries.len()
        invariant
            i <= entries@.len(),
            cache_view(res@) == cache_view(map_of(entries@.take(i as int))),
        decreases entries@.len() - i,
    {
        let ghost had = res@;
        let ghost next = entries@.take(i + 1);
        assert(next.drop_last() =~= entries@.take(i as int));
        assert(next.last() == entries@[i as int]);
        let (key, value) = &entries[i];
        res.insert(key.clone(), value.clone());
        assert(cache_view(res@) =~= cache_view(had).insert(key@, value@));
        assert(cache_view(map_of(next)) =~= cache_view(map_of(entries@.take(i as int))).insert(
            key@,
            value@,
        ));
        i = i + 1;
    }
    assert(entries@.take(i as int) =~= entries@);
    res
}

/// What to ask about `repo`, where `forks` is what is known of forks.
pub open spec fn plan_for(repo: Seq<char>, forks: Map<Seq<char>, Seq<char>>) -> PlanView {
    if repo_parts(repo) is None {
        PlanView::Absent
    } else if !forks.contains_key(repo) {
        PlanView::Detect
    } else if forks[repo].len() > 0 {
        PlanView::Upstream(forks[repo])
    } else {
        PlanView::Own
    }
}

/// What to ask about `repo`.
pub fn plan_repo(repo: &str, forks: &ForkCache) -> (res: RepoPlan)
    ensures
        res@ == plan_for(repo@, cache_view(forks@)),
{
    if split_repo(repo).is_none() {
        return RepoPlan::Absent;
    }
    match forks.get(repo) {
        Some(upstream) => if upstream.as_str().is_empty() {
            RepoPlan::Own
        } else {
            RepoPlan::Upstream(upstream.clone())
        },
        None => RepoPlan::Detect,
    }
}

/// The result of a repository whose name names none.
pub fn absent_result(repo: &str) -> (res: RepoResult)
    ensures
        res@ == absent_view(repo@),
{
    RepoResult::new(repo.to_owned(), RepoStatus::NotFound)
}

/// What a repository's own page says of its descent.
#[derive(Debug)]
pub struct RepoInfo {
    pub fork: Option<bool>,
    /// The full name of the repository that it was forked from.
    pub parent: Option<String>,
}

/// The upstream that a repository's page tells of.
pub open spec fn told_upstream(info: RepoInfo) -> Option<Seq<char>> {
    if info.fork == Some(true) {
        crate::text::opt_text(info.parent)
    } else {
        None
    }
}

/// What to ask about a repository once `page` is what came of asking for its page: its upstream's
/// items where it is a fork, else its own.
pub open spec fn plan_after(page: Result<RepoInfo, ApiFailure>) -> PlanView {
    match page {
        Ok(info) => match told_upstream(info) {
            Some(upstream) => PlanView::Upstream(upstream),
            None => PlanView::Own,
        },
        Err(_) => PlanView::Own,
    }
}

/// What `page` tells of the descent of `repo`: by its name the upstream, empty where it has none.
/// A page that could not be had tells nothing.
pub open spec fn told_descent(repo: Seq<char>, page: Result<RepoInfo, ApiFailure>) -> Option<
    (Seq<char>, Seq<char>),
> {
    match page {
        Ok(info) => match told_upstream(info) {
            Some(upstream) => Some((repo, upstream)),
            None => Some((repo, Seq::empty())),
        },
        Err(_) => None,
    }
}

/// What was found out of a descent, as texts.
pub open spec fn finding_view(finding: Option<(String, String)>) -> Option<
    (Seq<char>, Seq<char>),
> {
    match finding {
        Some((repo, upstream)) => Some((repo@, upstream@)),
        None => None,
    }
}

/// What to ask about `repo` once its page was asked for, and what to remember of it by its name:
/// the upstream, or nothing for what is no fork. Where the page could not be had, its own items
/// are asked for and nothing is remembered.
pub fn plan_detected(repo: &str, page: Result<RepoInfo, ApiFailure>) -> (res: (
    RepoPlan,
    Option<(String, String)>,
))
    ensures
        res.0@ == plan_after(page),
        finding_view(res.1) == told_descent(repo@, page),
{
    match page {
        Ok(info) => {
            let upstream = match info.fork {
                Some(true) => info.parent,
                _ => None,
            };
            match upstream {
                Some(upstream) => (
                    RepoPlan::Upstream(upstream.clone()),
                    Some((repo.to_owned(), upstream)),
                ),
                None => (RepoPlan::Own, Some((repo.to_owned(), String::new()))),
            }
        },
        Err(_) => (RepoPlan::Own, None),
    }
}

/// What was found out of forks, with one more finding.
pub open spec fn with_finding(
    found: Map<Seq<char>, Seq<char>>,
    finding: Option<(Seq<char>, Seq<char>)>,
) -> Map<Seq<char>, Seq<char>> {
    match finding {
        Some((repo, upstream)) => found.insert(repo, upstream),
        None => found,
    }
}

/// Repositories being fetched one by one, a few at a time. Each goes by the name that its result
/// carries.
#[derive(Debug)]
pub struct RestRun {
    repos: Vec<String>,
    slots: Vec<Option<RepoResult>>,
    detected: ForkCache,
    window: Window,
}

impl RestRun {
    /// The names of the repositories.
    pub closed spec fn repos(&self) -> Seq<Seq<char>> {
        texts(self.repos@)
    }

    /// What is known so far of each repository.
    pub closed spec fn slots(&self) -> Seq<Option<ResultView>> {
        slot_views(self.slots@)
    }

    /// What was found out of forks so far.
    pub closed spec fn detected(&self) -> Map<Seq<char>, Seq<char>> {
        cache_view(self.detected@)
    }

    /// Which repositories are being asked about.
    pub closed spec fn window(&self) -> Window {
        self.window
    }

    /// Whether there is a slot for each repository, which holds no other repository's result, what
    /// was found out of forks goes by names of the list, and the bound on requests is kept.
    pub open spec fn wf(&self) -> bool {
        &&& self.window().wf()
        &&& well_named(self.slots(), self.repos())
        &&& self.window().total() == self.repos().len()
        &&& forall|name: Seq<char>| #[trigger]
            self.detected().contains_key(name) ==> self.repos().contains(name)
    }

    /// Nothing asked yet.
    pub fn new(repos: Vec<String>) -> (res: Self)
        ensures
            res.wf(),
            res.repos() == texts(repos@),
            res.slots() == Seq::new(repos@.len(), |i: int| None::<ResultView>),
            res.detected() == Map::<Seq<char>, Seq<char>>::empty(),
            res.window().started() == 0,
            res.window().in_flight() == 0,
    {
        let slots = empty_slots(repos.len());
        let window = Window::new(repos.len());
        let detected = ForkCache::new();
        assert(cache_view(detected@) =~= Map::empty());
        RestRun { repos, slots, detected, window }
    }

    /// The next repository to ask about, where the bound allows one: its position and name.
    pub fn next(&mut self) -> (res: Option<(usize, String)>)
        requires
            old(self).wf(),
        ensures
            final(self).wf(),
            final(self).repos() == old(self).repos(),
            final(self).slots() == old(self).slots(),
            final(self).detected() == old(self).detected(),
            match res {
                Some((i, repo)) => {
                    &&& i == old(self).window().started() < old(self).repos().len()
                    &&& repo@ == old(self).repos()[i as int]
                    &&& final(self).window().started() == old(self).window().started() + 1
                    &&& final(self).window().in_flight() == old(self).window().in_flight() + 1
                },
                None => {
                    &&& old(self).window().started() == old(self).repos().len()
                        || old(self).window().in_flight() == crate::schedule::MAX_IN_FLIGHT
                    &&& final(self).window() == old(self).window()
                },
            },
    {
        let ghost had = *self;
        let started = self.window.start();
        assert(self.detected() == had.detected() && self.repos() == had.repos());
        match started {
            Some(i) => Some((i, self.repos[i].clone())),
            None => None,
        }
    }

    /// Takes in the result of the repository at position `index`, and what was found out of its
    /// descent by its name.
    pub fn on_result(&mut self, index: usize, result: RepoResult, detected: Option<(String, String)>)
        requires
            old(self).wf(),
            old(self).window().in_flight() > 0,
            index < old(self).repos().len(),
            result@.repo == old(self).repos()[index as int],
            detected matches Some((repo, _)) ==> repo@ == old(self).repos()[index as int],
        ensures
            final(self).wf(),
            final(self).repos() == old(self).repos(),
            final(self).slots() == old(self).slots().update(index as int, Some(result@)),
            final(self).detected() == with_finding(old(self).detected(), finding_view(detected)),
            final(self).window().started() == old(self).window().started(),
            final(self).window().in_flight() == old(self).window().in_flight() - 1,
    {
        let ghost had = *self;
        self.window.finish_one();
        self.slots.set(index, Some(result));
        assert(self.slots() =~= had.slots().update(index as int, Some(result@)));
        if let Some((repo, upstream)) = detected {
            self.detected.insert(repo, upstream);
            assert(self.detected() =~= had.detected().insert(repo@, upstream@));
        }
        assert(self.repos() == had.repos());
        assert forall|name: Seq<char>| #[trigger]
            self.detected().contains_key(name) implies self.repos().contains(name) by {
            assert(self.detected() == with_finding(had.detected(), finding_view(detected)));
            if !had.detected().contains_key(name) {
                assert(name == had.repos()[index as int]);
            }
        }
    }

    /// Whether nothing is being asked.
    pub fn is_idle(&self) -> (res: bool)
        ensures
            res == (self.window().in_flight() == 0),
    {
        self.window.is_idle()
    }

    /// The results, one for each repository in their order and by its name, and what was found
    /// out of forks, by names of the list only. What has no result by now took too long.
    pub fn finish(self) -> (res: (Vec<RepoResult>, ForkCache))
        requires
            self.wf(),
        ensures
            views(res.0@) == filled(self.slots(), self.repos()),
            res.0@.len() == self.repos().len(),
            forall|i: int|
                0 <= i < res.0@.len() ==> (#[trigger] res.0@[i])@.repo == self.repos()[i],
            cache_view(res.1@) == self.detected(),
            forall|name: Seq<char>| #[trigger]
                res.1@.contains_key(name) ==> self.repos().contains(name),
    {
        let results = fill(self.slots, &self.repos);
        proof {
            results_follow_the_list(self.slots(), self.repos());
            assert(views(results@).len() == results@.len());
            assert forall|i: int| 0 <= i < results@.len() implies (#[trigger] results@[i])@.repo
                == self.repos()[i] by {
                assert(views(results@)[i] == results@[i]@);
            }
        }
        assert forall|name: Seq<char>| #[trigger]
            self.detected@.contains_key(name) implies self.repos().contains(name) by {
            assert(self.detected().contains_key(name));
        }
        (results, self.detected)
    }
}

/// A repository's name is its owner, a slash and its name, and the owner holds no slash. Just those
/// texts are no such name that have no slash, or whose first slash is the first or the last
/// character.
pub proof fn repo_is_owner_and_name(repo: Seq<char>)
    ensures
        repo_parts(repo) matches Some((owner, name)) ==> {
            &&& repo == owner + seq!['/'] + name
            &&& owner.len() > 0
            &&& name.len() > 0
            &&& forall|i: int| 0 <= i < owner.len() ==> owner[i] != '/'
        },
        repo_parts(repo) is None <==> {
            ||| forall|i: int| 0 <= i < repo.len() ==> repo[i] != '/'
            ||| repo.len() > 0 && repo[0] == '/'
            ||| repo.len() > 0 && repo.last() == '/' && forall|i: int|
                0 <= i < repo.len() - 1 ==> repo[i] != '/'
        },
{
    let slash = seq!['/'];
    crate::text::find_is_first(repo, slash);
    match crate::text::find(repo, slash) {
        Some(i) => {
            assert(repo.subrange(i, i + 1)[0] == '/');
            assert(repo =~= repo.take(i) + slash + repo.skip(i + 1));
            assert forall|k: int| 0 <= k < i implies repo[k] != '/' by {
                assert(!crate::text::occurs_at(repo, slash, k));
                if repo[k] == '/' {
                    assert(repo.subrange(k, k + 1) =~= slash);
                }
            }
        },
        None => {
            assert forall|k: int| 0 <= k < repo.len() implies repo[k] != '/' by {
                assert(!crate::text::occurs_at(repo, slash, k));
                if repo[k] == '/' {
                    assert(repo.subrange(k, k + 1) =~= slash);
                }
            }
        },
    }
}

/// Only an answer that says so makes a repository absent: no other failure does.
pub proof fn only_404_is_absent(failure: FailureView, label: Seq<char>)
    ensures
        github_error(failure, label) is NotFound <==> failure_status(failure) == Some(404u16),
{
}

/// What was found out of a repository's descent is not asked again once it is remembered, and
/// leads to the same request: `remembered` is its upstream, empty where it has none.
pub proof fn remembered_descent_is_not_asked_again(
    repo: Seq<char>,
    forks: Map<Seq<char>, Seq<char>>,
    remembered: Seq<char>,
)
    requires
        repo_parts(repo) is Some,
    ensures
        plan_for(repo, forks.insert(repo, remembered)) == (if remembered.len() > 0 {
            PlanView::Upstream(remembered)
        } else {
            PlanView::Own
        }),
{
}

/// What a fetch of `repo` finds out of its descent, where `forks` is what is known of forks and
/// `page` is what comes of asking for its page: what the page tells, where the plan is to ask for
/// it.
pub open spec fn finding(
    repo: Seq<char>,
    forks: Map<Seq<char>, Seq<char>>,
    page: Result<RepoInfo, ApiFailure>,
) -> Option<(Seq<char>, Seq<char>)> {
    if plan_for(repo, forks) is Detect {
        told_descent(repo, page)
    } else {
        None
    }
}

/// What a run over `repos` has found out of forks once the fetches `done` were taken in, one after
/// the other: each is the position of a repository and what comes of asking for its page.
pub open spec fn findings(
    repos: Seq<Seq<char>>,
    forks: Map<Seq<char>, Seq<char>>,
    done: Seq<(usize, Result<RepoInfo, ApiFailure>)>,
) -> Map<Seq<char>, Seq<char>>
    decreases done.len(),
{
    if done.len() == 0 {
        Map::empty()
    } else {
        with_finding(
            findings(repos, forks, done.drop_last()),
            finding(repos[done.last().0 as int], forks, done.last().1),
        )
    }
}

/// A page is asked for, and its tale remembered, only of a repository of which nothing is known,
/// and only by its own name.
pub proof fn only_unknown_descent_is_found(
    repo: Seq<char>,
    forks: Map<Seq<char>, Seq<char>>,
    page: Result<RepoInfo, ApiFailure>,
)
    ensures
        finding(repo, forks, page) matches Some((name, _)) ==> name == repo
            && !forks.contains_key(name),
        finding(repo, forks, page) is Some <==> repo_parts(repo) is Some && !forks.contains_key(
            repo,
        ) && page is Ok,
{
}

/// Whether what was found out of forks goes by names of the list of which nothing was known.
pub open spec fn only_news(
    found: Map<Seq<char>, Seq<char>>,
    repos: Seq<Seq<char>>,
    forks: Map<Seq<char>, Seq<char>>,
) -> bool {
    forall|name: Seq<char>| #[trigger]
        found.contains_key(name) ==> repos.contains(name) && !forks.contains_key(name)
}

/// Taking in what a fetch found leaves only news: where the plan for the repository at `index` is
/// followed, no name of which something was known is remembered anew.
pub proof fn taking_in_leaves_only_news(
    found: Map<Seq<char>, Seq<char>>,
    repos: Seq<Seq<char>>,
    forks: Map<Seq<char>, Seq<char>>,
    index: int,
    page: Result<RepoInfo, ApiFailure>,
)
    requires
        only_news(found, repos, forks),
        0 <= index < repos.len(),
    ensures
        only_news(with_finding(found, finding(repos[index], forks, page)), repos, forks),
{
    only_unknown_descent_is_found(repos[index], forks, page);
}

/// What a run finds out of forks goes by names of the list of which nothing was known before, in
/// whatever order its fetches end; and every such name whose page could be had is found.
pub proof fn findings_are_new(
    repos: Seq<Seq<char>>,
    forks: Map<Seq<char>, Seq<char>>,
    done: Seq<(usize, Result<RepoInfo, ApiFailure>)>,
)
    requires
        forall|k: int| 0 <= k < done.len() ==> (#[trigger] done[k]).0 < repos.len(),
    ensures
        only_news(findings(repos, forks, done), repos, forks),
        forall|k: int|
            0 <= k < done.len() && finding(
                repos[(#[trigger] done[k]).0 as int],
                forks,
                done[k].1,
            ) is Some ==> findings(repos, forks, done).contains_key(repos[done[k].0 as int]),
        forall|name: Seq<char>| #[trigger]
            findings(repos, forks, done).contains_key(name) ==> exists|k: int|
                0 <= k < done.len() && finding(
                    repos[(#[trigger] done[k]).0 as int],
                    forks,
                    done[k].1,
                ) == Some((name, findings(repos, forks, done)[name])),
    decreases done.len(),
{
    if done.len() > 0 {
        let t = done.drop_last();
        let last = done[done.len() - 1];
        assert forall|k: int| 0 <= k < t.len() implies (#[trigger] t[k]).0 < repos.len() by {
            assert(t[k] == done[k]);
        }
        findings_are_new(repos, forks, t);
        taking_in_leaves_only_news(
            findings(repos, forks, t),
            repos,
            forks,
            last.0 as int,
            last.1,
        );
        let all = findings(repos, forks, done);
        let had = findings(repos, forks, t);
        assert forall|k: int|
            0 <= k < done.len() && finding(
                repos[(#[trigger] done[k]).0 as int],
                forks,
                done[k].1,
            ) is Some implies all.contains_key(repos[done[k].0 as int]) by {
            if k < t.len() {
                assert(t[k] == done[k]);
            }
        }
        assert forall|name: Seq<char>| #[trigger] all.contains_key(name) implies exists|k: int|
            0 <= k < done.len() && finding(
                repos[(#[trigger] done[k]).0 as int],
                forks,
                done[k].1,
            ) == Some((name, all[name])) by {
            match finding(repos[last.0 as int], forks, last.1) {
                Some((found, _)) if found == name => {
                    assert(finding(
                        repos[done[done.len() - 1].0 as int],
                        forks,
                        done[done.len() - 1].1,
                    ) == Some((name, all[name])));
                },
                _ => {
                    assert(had.contains_key(name));
                    let k = choose|k: int|
                        0 <= k < t.len() && finding(
                            repos[(#[trigger] t[k]).0 as int],
                            forks,
                            t[k].1,
                        ) == Some((name, had[name]));
                    assert(done[k] == t[k]);
                },
            }
        }
    }
}

} // verus!
