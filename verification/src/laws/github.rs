//! Laws on what is asked of GitHub and what its answers mean.
use vstd::prelude::*;

use crate::github::{
    failure_message, github_error, indexes, kind_of_type, later_failure, list_source,
    listed_candidates, login_told, numbers_or, pages_had, plan_after, plan_for, present,
    reachable_candidates, repo_is_owner_and_name, repo_of_api_url, repo_parts, source_known,
    source_told, status_of, subscribed_repo, told_descent, told_of, upstream_named, wanted_numbers,
    with_finding, AccountKind, ApiFailure, FailureView, GithubError, GithubErrorView, PlanView,
    RepoInfo, SourceView, SubscribedIssue, SubscribedItems,
};
use crate::http_status::status_line;
use crate::laws::order::{
    ascending, each_name_stands_once, members_are_shared, names_stand_in_order,
};
use crate::laws::text::{
    joining_lists, lower_case_forgets_case_alone, pieces_make_up_the_text, same_but_for_case,
    separators_part_the_pieces, texts_are_parted_once,
};
use crate::model::{ErrorView, RepoItem, StatusView};
use crate::order::in_text_order;
use crate::text::{find, find_is_first, join, lower, occurs_at, split, split_once, text_before, views};

verus! {

/// Whether a text is a repository written `owner/name`: two parts that are not empty and hold no
/// slash, and one slash between them.
pub open spec fn owner_and_name(repo: Seq<char>) -> bool {
    exists|p: int|
        0 < p < repo.len() - 1 && #[trigger] repo[p] == '/' && forall|k: int|
            0 <= k < repo.len() && k != p ==> #[trigger] repo[k] != '/'
}

/// Whether an address of the API speaks of `repo`: behind the first "/repos/" in it stands that
/// repository, written in whatever case, and then nothing or a slash.
pub open spec fn speaks_of(url: Seq<char>, repo: Seq<char>) -> bool {
    exists|a: Seq<char>, written: Seq<char>, tail: Seq<char>|
        url == #[trigger] (a + "/repos/"@ + written + tail) && (forall|j: int|
            0 <= j < a.len() ==> !occurs_at(url, "/repos/"@, j)) && owner_and_name(written)
            && same_but_for_case(written, repo) && (tail.len() == 0 || tail[0] == '/')
}

proof fn addresses_give_their_repo(
    url: Seq<char>,
    repo: Seq<char>,
    a: Seq<char>,
    written: Seq<char>,
    tail: Seq<char>,
)
    requires
        url == a + "/repos/"@ + written + tail,
        forall|j: int| 0 <= j < a.len() ==> !occurs_at(url, "/repos/"@, j),
        owner_and_name(written),
        same_but_for_case(written, repo),
        tail.len() == 0 || tail[0] == '/',
    ensures
        repo_of_api_url(url) == Some(lower(repo)),
{
    let pat = "/repos/"@;
    let n = a.len() as int;
    find_is_first(url, pat);
    assert(url.subrange(n, n + pat.len()) =~= pat);
    assert(occurs_at(url, pat, n));
    assert(find(url, pat) == Some(n));
    let path = url.skip(n + pat.len());
    assert(path =~= written + tail);
    let p = choose|p: int|
        0 < p < written.len() - 1 && #[trigger] written[p] == '/' && forall|k: int|
            0 <= k < written.len() && k != p ==> #[trigger] written[k] != '/';
    let owner = written.take(p);
    let name = written.skip(p + 1);
    assert forall|k: int| 0 <= k < owner.len() implies #[trigger] owner[k] != '/' by {
        assert(owner[k] == written[k]);
    }
    assert forall|k: int| 0 <= k < name.len() implies #[trigger] name[k] != '/' by {
        assert(name[k] == written[p + 1 + k]);
    }
    let rest = name + tail;
    assert(path =~= owner + seq!['/'] + rest);
    separators_part_the_pieces(owner, rest, '/');
    if tail.len() == 0 {
        assert(rest =~= name);
        separators_part_the_pieces(name, rest, '/');
    } else {
        assert(rest =~= name + seq!['/'] + tail.skip(1));
        separators_part_the_pieces(name, tail.skip(1), '/');
    }
    let segments = split(path, '/');
    assert(segments[0] == owner);
    assert(segments[1] == name);
    assert(owner + seq!['/'] + name =~= written);
    lower_case_forgets_case_alone(written, repo);
}

proof fn repos_come_from_addresses(url: Seq<char>, repo: Seq<char>)
    requires
        repo_of_api_url(url) == Some(lower(repo)),
    ensures
        speaks_of(url, repo),
{
    let pat = "/repos/"@;
    texts_are_parted_once(url, pat);
    let (a, path) = split_once(url, pat)->0;
    let segments = split(path, '/');
    pieces_make_up_the_text(path, '/');
    let owner = segments[0];
    let name = segments[1];
    let written = owner + seq!['/'] + name;
    let front = seq![owner, name];
    let back = segments.skip(2);
    assert(segments =~= front + back);
    joining_lists(seq![owner], seq![name], owner, seq!['/']);
    joining_lists(seq![owner], seq![name], name, seq!['/']);
    assert(seq![owner] + seq![name] =~= front);
    assert(join(front, seq!['/']) == written);
    let tail = path.skip(written.len() as int);
    if back.len() == 0 {
        assert(segments =~= front);
        assert(path == written);
        assert(tail.len() == 0);
    } else {
        joining_lists(front, back, owner, seq!['/']);
        assert(path == written + seq!['/'] + join(back, seq!['/']));
        assert(tail[0] == '/');
    }
    assert(path =~= written + tail);
    let p = owner.len() as int;
    assert(written[p] == '/');
    assert forall|k: int| 0 <= k < written.len() && k != p implies #[trigger] written[k] != '/' by {
        if k < p {
            assert(written[k] == segments[0][k]);
        } else {
            assert(written[k] == segments[1][k - p - 1]);
        }
    }
    assert(owner_and_name(written));
    assert(lower(written) == lower(repo));
    lower_case_forgets_case_alone(written, repo);
    assert(url =~= a + pat + written + tail);
}

/// The repository of an address goes by its name in lower case: it is that of `repo` just where
/// the address speaks of `repo`, whatever the case in which either is written.
pub proof fn addresses_speak_of_their_repo(url: Seq<char>, repo: Seq<char>)
    ensures
        repo_of_api_url(url) == Some(lower(repo)) <==> speaks_of(url, repo),
{
    if repo_of_api_url(url) == Some(lower(repo)) {
        repos_come_from_addresses(url, repo);
    }
    if speaks_of(url, repo) {
        let (a, written, tail) = choose|a: Seq<char>, written: Seq<char>, tail: Seq<char>|
            url == #[trigger] (a + "/repos/"@ + written + tail) && (forall|j: int|
                0 <= j < a.len() ==> !occurs_at(url, "/repos/"@, j)) && owner_and_name(written)
                && same_but_for_case(written, repo) && (tail.len() == 0 || tail[0] == '/');
        addresses_give_their_repo(url, repo, a, written, tail);
    }
}

/// Of the subscriptions, a number is wanted of a repository just where one with that number has an
/// address that speaks of the repository, in whatever case either is written.
pub proof fn subscriptions_want_their_numbers(
    items: &SubscribedItems,
    issues: Seq<SubscribedIssue>,
    repo: Seq<char>,
    number: u64,
)
    requires
        indexes(*items, issues),
    ensures
        wanted_numbers(Some(items), repo) is Some,
        (wanted_numbers(Some(items), repo)->0).contains(number) <==> exists|i: int|
            0 <= i < issues.len() && speaks_of((#[trigger] issues[i]).repository_url@, repo)
                && issues[i].number == number,
{
    let key = lower(repo);
    assert forall|i: int| 0 <= i < issues.len() implies (#[trigger] subscribed_repo(issues[i])
        == Some(key)) == speaks_of(issues[i].repository_url@, repo) by {
        addresses_speak_of_their_repo(issues[i].repository_url@, repo);
    }
    if exists|i: int|
        0 <= i < issues.len() && speaks_of((#[trigger] issues[i]).repository_url@, repo)
            && issues[i].number == number {
        let i = choose|i: int|
            0 <= i < issues.len() && speaks_of((#[trigger] issues[i]).repository_url@, repo)
                && issues[i].number == number;
        assert(subscribed_repo(issues[i]) == Some(key));
        assert(items@.contains_key(key));
        assert(items@[key]@.contains(number));
    }
    if items@.contains_key(key) && items@[key]@.contains(number) {
        let i = choose|i: int|
            0 <= i < issues.len() && #[trigger] subscribed_repo(issues[i]) == Some(key)
                && issues[i].number == number;
        assert(speaks_of(issues[i].repository_url@, repo));
    }
}

/// The case in which a repository is written makes no difference to what is wanted of it, and
/// where there are no subscriptions to go by, everything is.
pub proof fn case_makes_no_difference_to_subscriptions(
    subscribed: Option<&SubscribedItems>,
    a: Seq<char>,
    b: Seq<char>,
    none: Set<u64>,
)
    requires
        same_but_for_case(a, b),
    ensures
        numbers_or(subscribed, a, none) == numbers_or(subscribed, b, none),
        numbers_or(None, a, none) is None,
        subscribed is Some ==> numbers_or(subscribed, a, none) is Some,
{
    lower_case_forgets_case_alone(a, b);
}

/// Where the candidates come from: from all that the token reaches for `--all`, for no account and
/// for the user's own account, in whatever case it is written; else from the account that was
/// named, which counts as an organization just where it is known to be one.
pub proof fn own_account_is_listed_whole(
    all: bool,
    username: Option<Seq<char>>,
    login: Seq<char>,
    kind: Option<AccountKind>,
)
    ensures
        list_source(all, username, login, kind) is Authenticated <==> all || (username matches Some(
            name,
        ) ==> same_but_for_case(name, login)),
        list_source(all, username, login, kind) matches SourceView::Org(name) ==> username == Some(
            name,
        ) && kind == Some(AccountKind::Organization),
        list_source(all, username, login, kind) matches SourceView::PublicUser(name) ==> username
            == Some(name) && kind != Some(AccountKind::Organization),
{
    if let Some(name) = username {
        lower_case_forgets_case_alone(name, login);
    }
}

/// An account is an organization's just where its profile says so.
pub proof fn profiles_tell_the_kind(profile_type: Seq<char>)
    ensures
        kind_of_type(profile_type) == AccountKind::Organization <==> profile_type
            == "Organization"@,
{
}

/// A failed first request means an absent repository just where GitHub answered 404; any other
/// failure stays the failure that it is.
pub proof fn absence_is_answered_with_404(failure: FailureView, label: Seq<char>)
    ensures
        github_error(failure, label) is NotFound <==> (failure matches FailureView::Github {
            status,
            ..
        } && status == 404),
        github_error(failure, label) matches GithubErrorView::NotFound(told) ==> told == label,
        github_error(failure, label) matches GithubErrorView::Api(told) ==> told == failure,
{
}

/// The line that tells of a failure holds what GitHub said behind its status; a refused token is
/// told with the way out, and what is no answer of GitHub is told as it is.
pub proof fn failures_are_told(status: u16, message: Seq<char>, text: Seq<char>)
    ensures
        failure_message(FailureView::Other(text)) == text,
        status != 401 ==> failure_message(FailureView::Github { status, message }) == "HTTP "@
            + status_line(status) + " "@ + message,
        status == 401 ==> failure_message(FailureView::Github { status, message }) == "HTTP "@
            + status_line(status) + " "@ + message + " \u{2014} set GITHUB_TOKEN"@,
{
}

/// A fetch that failed is told as absent just where the repository is, as failed just where the
/// API failed, and one that brought items shows them.
pub proof fn outcomes_are_told(outcome: Result<Vec<RepoItem>, GithubError>)
    ensures
        status_of(outcome) is NotFound <==> (outcome matches Err(e) && e is NotFound),
        status_of(outcome) is Error <==> (outcome matches Err(e) && e is Api),
        status_of(outcome) matches StatusView::Items(items) ==> outcome matches Ok(found) && items
            == views(found@),
        status_of(outcome) matches StatusView::Error(e) ==> e matches ErrorView::Api(told)
            && outcome matches Err(GithubError::Api(failure)) && told == failure_message(failure@),
{
}

/// What is told of a repository goes by its name and tells the upstream that was asked, if any, and
/// how that ended.
pub proof fn results_go_by_the_repo(
    repo: Seq<char>,
    upstream: Option<Seq<char>>,
    outcome: Result<Vec<RepoItem>, GithubError>,
)
    ensures
        told_of(repo, upstream, outcome).repo == repo,
        told_of(repo, upstream, outcome).upstream == upstream,
        told_of(repo, upstream, outcome).status is Items <==> outcome is Ok,
        told_of(repo, upstream, outcome).status matches StatusView::Items(items) ==> items == views(
            outcome->Ok_0@,
        ),
        told_of(repo, upstream, outcome).status is NotFound <==> (outcome matches Err(e)
            && e is NotFound),
{
}

/// An upstream is asked by its owner and name: what stands before its first slash and what stands
/// behind it. What has no such pair is absent, by the name that it was given.
pub proof fn upstreams_go_by_owner_and_name(upstream: Seq<char>)
    ensures
        match upstream_named(upstream) {
            Ok((owner, name)) => {
                &&& upstream == owner + seq!['/'] + name
                &&& owner.len() > 0
                &&& name.len() > 0
                &&& forall|i: int| 0 <= i < owner.len() ==> owner[i] != '/'
            },
            Err(e) => e == GithubErrorView::NotFound(upstream) && forall|p: int|
                0 < p < upstream.len() - 1 && #[trigger] upstream[p] == '/' ==> exists|k: int|
                    0 <= k < p && #[trigger] upstream[k] == '/',
        },
{
    repo_is_owner_and_name(upstream);
}

/// What was found out of a repository is remembered as it was found last, and nothing else changes.
pub proof fn the_last_finding_stands(
    found: Map<Seq<char>, Seq<char>>,
    finding: Option<(Seq<char>, Seq<char>)>,
    name: Seq<char>,
)
    ensures
        finding matches Some((repo, upstream)) ==> with_finding(found, finding).contains_key(repo)
            && with_finding(found, finding)[repo] == upstream,
        (finding matches Some((repo, _)) ==> repo != name) ==> with_finding(
            found,
            finding,
        ).contains_key(name) == found.contains_key(name) && with_finding(found, finding)[name]
            == found[name],
{
}

/// Whether GitHub answered with this status.
pub open spec fn answered(failure: ApiFailure, status: u16) -> bool {
    failure matches ApiFailure::Github { status: told, .. } && told.spec_code() == status
}

/// Only a token that GitHub refuses has no login; any other failure is told as it is, and a login
/// that was named is kept.
pub proof fn only_a_refused_token_has_no_login(reply: Result<String, ApiFailure>)
    ensures
        login_told(reply) == Ok::<Option<String>, ApiFailure>(None) <==> (reply matches Err(e)
            && answered(e, 401)),
        reply matches Ok(login) ==> login_told(reply) == Ok::<Option<String>, ApiFailure>(
            Some(login),
        ),
        reply matches Err(e) ==> (!answered(e, 401) ==> login_told(reply) == Err::<
            Option<String>,
            ApiFailure,
        >(e)),
{
}

/// Once the login is known, everything within reach is listed just where it is that of the account
/// that was named, in whatever case; the account's profile then makes no difference, and any other
/// account is listed as what its profile says.
pub proof fn the_login_settles_the_own_account(
    login: Option<Seq<char>>,
    username: Seq<char>,
    profile_type: Seq<char>,
)
    ensures
        ({
            let own = login matches Some(login) && same_but_for_case(login, username);
            &&& source_known(login, username) is Some <==> own
            &&& source_known(login, username) matches Some(source) ==> source is Authenticated
            &&& own ==> source_told(login, username, profile_type) is Authenticated
            &&& !own && username.len() > 0 ==> source_told(login, username, profile_type) == (
            if profile_type == "Organization"@ {
                SourceView::Org(username)
            } else {
                SourceView::PublicUser(username)
            })
        }),
{
    let known = match login {
        Some(login) => login,
        None => ""@,
    };
    reveal_strlit("");
    lower_case_forgets_case_alone(known, username);
    lower_case_forgets_case_alone(username, known);
    own_account_is_listed_whole(
        false,
        Some(username),
        known,
        Some(kind_of_type(profile_type)),
    );
}

/// Both first pages are had just where neither failed; else what is told is the failure of the
/// issues, or that of the pull requests where the issues came, and it is an absent repository just
/// where GitHub answered so.
pub proof fn the_first_failure_is_told<A, B>(
    issues: Result<A, ApiFailure>,
    pulls: Result<B, ApiFailure>,
    label: Seq<char>,
)
    ensures
        ({
            let told = pages_had(issues, pulls, label);
            &&& told is Ok <==> issues is Ok && pulls is Ok
            &&& told matches Ok(pages) ==> pages == (issues->Ok_0, pulls->Ok_0)
            &&& issues matches Err(e) ==> if answered(e, 404) {
                told == Err::<(A, B), GithubErrorView>(GithubErrorView::NotFound(label))
            } else {
                told == Err::<(A, B), GithubErrorView>(GithubErrorView::Api(e@))
            }
            &&& issues is Ok ==> (pulls matches Err(e) ==> if answered(e, 404) {
                told == Err::<(A, B), GithubErrorView>(GithubErrorView::NotFound(label))
            } else {
                told == Err::<(A, B), GithubErrorView>(GithubErrorView::Api(e@))
            })
        }),
{
}

/// Behind the first page a failure is told as the failure that it is, that of the issues first.
pub proof fn later_failures_are_no_absence<A, B>(
    issues: Result<A, ApiFailure>,
    pulls: Result<B, ApiFailure>,
)
    ensures
        later_failure(issues, pulls) is None <==> issues is Ok && pulls is Ok,
        issues matches Err(e) ==> later_failure(issues, pulls) == Some(GithubError::Api(e)),
        issues is Ok ==> (pulls matches Err(e) ==> later_failure(issues, pulls) == Some(
            GithubError::Api(e),
        )),
{
}

proof fn present_names_are_there(names: Seq<Option<String>>)
    ensures
        forall|k: int|
            0 <= k < present(names).len() ==> lists(names, #[trigger] present(names)[k]),
        forall|i: int|
            0 <= i < names.len() && (#[trigger] names[i]) is Some ==> present(names).contains(
                names[i]->0@,
            ),
        present(names).len() == names.filter(|name: Option<String>| name is Some).len(),
    decreases names.len(),
{
    reveal(Seq::filter);
    if names.len() > 0 {
        let t = names.drop_last();
        present_names_are_there(t);
        let head = present(t);
        let all = present(names);
        assert forall|k: int| 0 <= k < all.len() implies lists(names, #[trigger] all[k]) by {
            if k < head.len() {
                assert(all[k] == head[k]);
                let i = choose|i: int|
                    0 <= i < t.len() && (#[trigger] t[i]) is Some && t[i]->0@ == head[k];
                assert(names[i] == t[i]);
            } else {
                assert(names[names.len() - 1] == names.last());
            }
        }
        assert forall|i: int| 0 <= i < names.len() && (#[trigger] names[i]) is Some implies all.contains(
            names[i]->0@,
        ) by {
            if i < t.len() {
                assert(t[i] == names[i]);
                assert(head.contains(t[i]->0@));
                let k = choose|k: int| 0 <= k < head.len() && head[k] == t[i]->0@;
                assert(all[k] == head[k]);
            } else {
                assert(all[all.len() - 1] == names[i]->0@);
            }
        }
    }
}

/// Whether a listing tells of a repository by this name.
pub open spec fn lists(full_names: Seq<Option<String>>, name: Seq<char>) -> bool {
    exists|i: int|
        0 <= i < full_names.len() && (#[trigger] full_names[i]) is Some && full_names[i]->0@ == name
}

/// The candidates are the names that a listing tells, in the order of texts; of all that the token
/// reaches each name once.
pub proof fn candidates_are_what_was_listed(full_names: Seq<Option<String>>)
    ensures
        forall|name: Seq<char>| #[trigger]
            listed_candidates(full_names).contains(name) == lists(full_names, name),
        listed_candidates(full_names).len() == full_names.filter(
            |name: Option<String>| name is Some,
        ).len(),
        forall|i: int, j: int|
            #![trigger listed_candidates(full_names)[i], listed_candidates(full_names)[j]]
            0 <= i < j < listed_candidates(full_names).len() ==> !text_before(
                listed_candidates(full_names)[j],
                listed_candidates(full_names)[i],
            ),
        forall|name: Seq<char>| #[trigger]
            reachable_candidates(full_names).contains(name) == lists(full_names, name),
        ascending(reachable_candidates(full_names)),
{
    let names = present(full_names);
    present_names_are_there(full_names);
    names_stand_in_order(names);
    each_name_stands_once(names);
    members_are_shared(in_text_order(names), names);
    assert forall|name: Seq<char>| names.contains(name) == lists(full_names, name) by {
        if names.contains(name) {
            let k = choose|k: int| 0 <= k < names.len() && names[k] == name;
            assert(lists(full_names, names[k]));
        }
    }
}

/// What is asked about a repository: nothing where its name is none, its descent where nothing is
/// known of it, else the items at the upstream that is known, or its own where none is.
pub proof fn plans_follow_what_is_known(repo: Seq<char>, forks: Map<Seq<char>, Seq<char>>)
    ensures
        plan_for(repo, forks) is Absent <==> repo_parts(repo) is None,
        plan_for(repo, forks) is Detect <==> repo_parts(repo) is Some && !forks.contains_key(repo),
        plan_for(repo, forks) matches PlanView::Upstream(upstream) ==> forks.contains_key(repo)
            && forks[repo] == upstream && upstream.len() > 0,
        plan_for(repo, forks) is Own ==> forks.contains_key(repo) && forks[repo].len() == 0,
{
}

/// A repository whose page names a parent and says that it is a fork is looked at upstream, and
/// that is remembered; any other page means its own items, and that it is no fork is remembered.
/// Nothing is remembered where the page could not be had.
pub proof fn pages_tell_the_descent(repo: Seq<char>, page: Result<RepoInfo, ApiFailure>)
    ensures
        match page {
            Ok(info) => match (info.fork, info.parent) {
                (Some(true), Some(parent)) => plan_after(page) == PlanView::Upstream(parent@)
                    && told_descent(repo, page) == Some((repo, parent@)),
                _ => plan_after(page) is Own && told_descent(repo, page) == Some(
                    (repo, Seq::<char>::empty()),
                ),
            },
            Err(_) => plan_after(page) is Own && told_descent(repo, page) is None,
        },
{
}

} // verus!
