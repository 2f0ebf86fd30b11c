//! Laws on what is asked of GitLab and what its answers mean.
use vstd::prelude::*;

use crate::commands::list::configured_host;
use crate::config::{instance_url, ConfigView, GitlabView};
use crate::gitlab::{
    different_paths_are_different_segments, encoded_byte, encoded_path, group_projects_address,
    issue_view, issues_address, label_of, list_failure, listing_error, merge_requests_address,
    mr_view, next_query, page_query, paths_of, percent_encoded, project_candidates,
    project_listing, project_status, project_told, walk_gathers_and_ends, walked, GitlabIssue,
    GitlabMr, GitlabProject, GROUP_PROJECTS_FILTER, MEMBERSHIP_PROJECTS_FILTER, OPEN_ITEMS_FILTER,
};
use crate::gitlab_client::{
    api_base, built, chosen_token, head_read, instance_host, request_headers, request_url, step_chain,
    uri_parts, url_chain, url_message, GitlabHttpError, RequestStep, UriView, UrlErrorView,
};
use crate::http_status::{is_status, is_success_code, status_line};
use crate::laws::items::{listings_hold_what_is_wanted, stands_in, well_listed};
use crate::laws::order::{ascending, each_name_stands_once};
use crate::laws::text::{
    bare, blank_texts_count_as_none, slashless, trailing_slashes_go,
    trimming_takes_white_space_alone, unslashing_takes_slashes_alone,
};
use crate::model::{ErrorView, ItemKind, ItemView, RepoItem, StatusView};
use crate::text::{decimal, digit, is_white_space, trimmed, unslashed, views};

verus! {

/// Whether an item tells of a merge request.
pub open spec fn tells_of_mr(item: ItemView, mr: GitlabMr) -> bool {
    &&& item.kind == ItemKind::PullRequest
    &&& item.number == mr.iid
    &&& item.title == mr.title@
    &&& item.created_at == mr.created_at
    &&& item.updated_at == mr.created_at
    &&& match mr.author {
        Some(author) => item.author == author.username@,
        None => item.author == "unknown"@,
    }
    &&& item.pr_draft == Some(mr.draft)
    &&& item.comments is None
    &&& item.review_decision is None
    &&& !item.mine
}

/// Whether an item tells of an issue.
pub open spec fn tells_of_issue(item: ItemView, issue: GitlabIssue) -> bool {
    &&& item.kind == ItemKind::Issue
    &&& item.number == issue.iid
    &&& item.title == issue.title@
    &&& item.created_at == issue.created_at
    &&& item.updated_at == issue.created_at
    &&& match issue.author {
        Some(author) => item.author == author.username@,
        None => item.author == "unknown"@,
    }
    &&& item.pr_draft is None
    &&& item.comments is None
    &&& item.review_decision is None
    &&& !item.mine
}

/// Whether an item tells of one of these merge requests or issues.
pub open spec fn stems_from(
    item: ItemView,
    mrs: Seq<GitlabMr>,
    issues: Seq<GitlabIssue>,
) -> bool {
    ||| exists|i: int| 0 <= i < mrs.len() && tells_of_mr(item, #[trigger] mrs[i])
    ||| exists|i: int| 0 <= i < issues.len() && tells_of_issue(item, #[trigger] issues[i])
}

/// Whether one of `items` tells of a merge request.
pub open spec fn mr_told_by(mr: GitlabMr, items: Seq<ItemView>) -> bool {
    exists|k: int| 0 <= k < items.len() && tells_of_mr(#[trigger] items[k], mr)
}

/// Whether one of `items` tells of an issue.
pub open spec fn issue_told_by(issue: GitlabIssue, items: Seq<ItemView>) -> bool {
    exists|k: int| 0 <= k < items.len() && tells_of_issue(#[trigger] items[k], issue)
}

/// Whether items tell of a project's lists: each of a merge request or an issue, each of these has
/// its item, there are as many, and they stand as a listing does.
pub open spec fn tell_of_project(
    out: Seq<ItemView>,
    mrs: Seq<GitlabMr>,
    issues: Seq<GitlabIssue>,
) -> bool {
    &&& well_listed(out)
    &&& out.len() == mrs.len() + issues.len()
    &&& forall|k: int| 0 <= k < out.len() ==> #[trigger] stems_from(out[k], mrs, issues)
    &&& forall|i: int| 0 <= i < mrs.len() ==> #[trigger] mr_told_by(mrs[i], out)
    &&& forall|i: int| 0 <= i < issues.len() ==> #[trigger] issue_told_by(issues[i], out)
}

/// The items of a project tell of its lists.
pub proof fn project_items_tell_of_their_entries(mrs: Seq<GitlabMr>, issues: Seq<GitlabIssue>)
    ensures
        tell_of_project(project_listing(mrs, issues), mrs, issues),
{
    let of_mrs = mrs.map_values(|mr: GitlabMr| mr_view(mr));
    let of_issues = issues.map_values(|issue: GitlabIssue| issue_view(issue));
    let all = of_mrs + of_issues;
    let out = project_listing(mrs, issues);
    listings_hold_what_is_wanted(all, None);
    assert(crate::github::retained(all, None) == all);
    assert forall|k: int| 0 <= k < out.len() implies #[trigger] stems_from(
        out[k],
        mrs,
        issues,
    ) by {
        assert(stands_in(out[k], out));
        let m = choose|m: int| 0 <= m < all.len() && #[trigger] all[m] == out[k];
        if m < of_mrs.len() {
            assert(all[m] == of_mrs[m]);
            assert(tells_of_mr(out[k], mrs[m]));
        } else {
            assert(all[m] == of_issues[m - of_mrs.len()]);
            assert(tells_of_issue(out[k], issues[m - of_mrs.len()]));
        }
    }
    assert forall|i: int| 0 <= i < mrs.len() implies #[trigger] mr_told_by(mrs[i], out) by {
        let item = mr_view(mrs[i]);
        assert(all[i] == item);
        assert(stands_in(item, all));
        assert(stands_in(item, out));
        let k = choose|k: int| 0 <= k < out.len() && #[trigger] out[k] == item;
        assert(tells_of_mr(out[k], mrs[i]));
    }
    assert forall|i: int| 0 <= i < issues.len() implies #[trigger] issue_told_by(
        issues[i],
        out,
    ) by {
        let item = issue_view(issues[i]);
        assert(all[of_mrs.len() + i] == item);
        assert(stands_in(item, all));
        assert(stands_in(item, out));
        let k = choose|k: int| 0 <= k < out.len() && #[trigger] out[k] == item;
        assert(tells_of_issue(out[k], issues[i]));
    }
}

/// A project that was answered with 404 is absent, and only such a one is; any other failure is
/// told, by its status or by its outer line.
pub proof fn project_outcomes_are_told(outcome: Result<Vec<RepoItem>, GitlabHttpError>)
    ensures
        project_status(outcome) is Items <==> outcome is Ok,
        project_status(outcome) matches StatusView::Items(items) ==> outcome matches Ok(found)
            && items == views(found@),
        project_status(outcome) is NotFound <==> (outcome matches Err(GitlabHttpError::Status(s))
            && s.spec_code() == 404),
        outcome matches Err(GitlabHttpError::Status(s)) ==> (s.spec_code() != 404 ==> project_status(
            outcome,
        ) == StatusView::Error(ErrorView::Api("http "@ + status_line(s.spec_code())))),
        outcome matches Err(GitlabHttpError::Other(chain)) ==> project_status(outcome)
            == StatusView::Error(ErrorView::Api(chain.message@)),
{
}

/// A failed listing is told with the way out where the token is missing or may not read, as a path
/// to look at where nothing was found, and with all its causes where there was no usable answer.
pub proof fn failed_listings_are_told(e: GitlabHttpError)
    ensures
        e matches GitlabHttpError::Other(chain) ==> listing_error(e).message == chain.message@
            && listing_error(e).causes == views(chain.causes@),
        e matches GitlabHttpError::Status(s) ==> listing_error(e).causes.len() == 0,
        e matches GitlabHttpError::Status(s) ==> {
            let told = listing_error(e).message;
            let code = s.spec_code();
            &&& code == 401 || code == 403 ==> told == "GitLab refused the request (http "@
                + status_line(code)
                + "). Set GITLAB_TOKEN to a personal access token with the `read_api` scope."@
            &&& code == 404 ==> told
                == "not found (http 404) \u{2014} check the group path and your access"@
            &&& code != 401 && code != 403 && code != 404 ==> told == "http "@ + status_line(code)
        },
{
}

/// A request that failed without an answer tells the address that was asked, but for one that
/// could not even be built, and keeps its causes, but for one that took too long.
pub proof fn failed_requests_are_told(
    step: RequestStep,
    url: Seq<char>,
    causes: Seq<Seq<char>>,
)
    ensures
        step_chain(step, url, causes).causes == (if step == RequestStep::Waiting {
            Seq::empty()
        } else {
            causes
        }),
        step == RequestStep::Building ==> step_chain(step, url, causes).message
            == "building GitLab request"@,
        step == RequestStep::Waiting ==> step_chain(step, url, causes).message
            == "GitLab request timed out: "@ + url,
        step == RequestStep::Requesting ==> step_chain(step, url, causes).message == "requesting "@
            + url,
        step == RequestStep::Reading ==> step_chain(step, url, causes).message == "reading "@ + url,
        step == RequestStep::Parsing ==> step_chain(step, url, causes).message
            == "parsing GitLab response from "@ + url,
{
}

/// What the digest calls a project is the host, a slash and the project's path, without the white
/// space and the slashes around it.
pub proof fn labels_tell_host_and_path(host: Seq<char>, path: Seq<char>)
    ensures
        label_of(host, path).len() > host.len(),
        label_of(host, path).take(host.len() as int) == host,
        label_of(host, path)[host.len() as int] == '/',
        exists|inner: Seq<char>| #[trigger]
            bare(path, inner) && slashless(
                inner,
                label_of(host, path).skip((host.len() + 1) as int),
            ),
{
    reveal_strlit("/");
    let label = label_of(host, path);
    assert("/"@ =~= seq!['/']);
    assert(label.take(host.len() as int) =~= host);
    assert(label.skip((host.len() + 1) as int) =~= unslashed(trimmed(path)));
    trimming_takes_white_space_alone(path);
    unslashing_takes_slashes_alone(trimmed(path));
}

/// The number that a hexadecimal digit in capitals stands for; none for any other character.
pub open spec fn hex_value(c: char) -> Option<int> {
    if '0' <= c <= '9' {
        Some(c as int - '0' as int)
    } else if 'A' <= c <= 'F' {
        Some(c as int - 'A' as int + 10)
    } else {
        None
    }
}

/// Whether a text stands for a byte: a letter or digit for itself, any other behind a percent sign
/// in two hexadecimal digits.
pub open spec fn escapes(text: Seq<char>, b: u8) -> bool {
    if '0' as int <= b <= '9' as int || 'A' as int <= b <= 'Z' as int || 'a' as int <= b
        <= 'z' as int {
        text.len() == 1 && text[0] as int == b
    } else {
        &&& text.len() == 3
        &&& text[0] == '%'
        &&& hex_value(text[1]) matches Some(high) && hex_value(text[2]) matches Some(low) && high * 16
            + low == b
    }
}

proof fn bytes_are_escaped(b: u8)
    ensures
        escapes(encoded_byte(b), b),
{
    assert(b == (b / 16) * 16 + b % 16);
}

/// A path is asked for without the white space around it, and byte by byte: letters and digits as
/// they are, everything else escaped.
pub proof fn paths_are_escaped_byte_by_byte(path: Seq<char>, bytes: Seq<u8>)
    ensures
        exists|inner: Seq<char>| #[trigger]
            bare(path, inner) && encoded_path(path) == percent_encoded(
                vstd::utf8::encode_utf8(inner),
            ),
        percent_encoded(Seq::empty()).len() == 0,
        bytes.len() > 0 ==> exists|last: Seq<char>| #[trigger]
            escapes(last, bytes.last()) && percent_encoded(bytes) == percent_encoded(
                bytes.drop_last(),
            ) + last,
{
    trimming_takes_white_space_alone(path);
    assert(bare(path, trimmed(path)));
    if bytes.len() > 0 {
        bytes_are_escaped(bytes.last());
        assert(escapes(encoded_byte(bytes.last()), bytes.last()));
    }
}

/// Where the issues, the merge requests and the projects of a group are: under the path of the
/// project or the group, as one segment.
pub proof fn lists_stand_under_their_path(path: Seq<char>)
    ensures
        issues_address(path) == "/projects/"@ + encoded_path(path) + "/issues"@,
        merge_requests_address(path) == "/projects/"@ + encoded_path(path) + "/merge_requests"@,
        group_projects_address(path) == "/groups/"@ + encoded_path(path) + "/projects"@,
{
}

/// An address that is none is told with what is wrong with it and, where it is no URI, with why not.
pub proof fn bad_addresses_are_told(e: UrlErrorView)
    ensures
        url_chain(e).message == url_message(e),
        e matches UrlErrorView::Invalid { url, cause } ==> url_message(e)
            == "gitlab url is not a valid URI: "@ + url && url_chain(e).causes == seq![cause],
        e matches UrlErrorView::Scheme(url) ==> url_message(e)
            == "gitlab url must start with http:// or https:// (got "@ + url + ")"@
            && url_chain(e).causes.len() == 0,
        e matches UrlErrorView::NoHost(url) ==> url_message(e) == "gitlab url has no host: "@ + url
            && url_chain(e).causes.len() == 0,
{
}

/// An answer is taken just where its status is one of success; then the next page is the one that it
/// names, without the white space around it, and there is none where it names none.
pub proof fn only_success_is_read(code: u16, next_page: Option<Seq<char>>)
    ensures
        head_read(code, next_page) is Some <==> 200 <= code < 300,
        200 <= code < 300 ==> (next_page matches Some(text) ==> {
            let blank = forall|k: int| 0 <= k < text.len() ==> is_white_space(#[trigger] text[k]);
            &&& blank ==> head_read(code, next_page) == Some(None::<Seq<char>>)
            &&& !blank ==> (head_read(code, next_page) matches Some(Some(page)) && bare(text, page))
        }),
        200 <= code < 300 && next_page is None ==> head_read(code, next_page) == Some(
            None::<Seq<char>>,
        ),
{
    if let Some(text) = next_page {
        blank_texts_count_as_none(text);
    }
}

/// The number of a status has three digits, and those of success begin with a two.
pub proof fn statuses_have_three_digits(code: u16)
    ensures
        is_status(code) <==> decimal(code as nat).len() == 3,
        is_success_code(code) <==> is_status(code) && decimal(code as nat)[0] == '2',
{
    let n = code as nat;
    reveal_with_fuel(decimal, 6);
    assert(n < 10 ==> decimal(n).len() == 1);
    assert(10 <= n < 100 ==> decimal(n).len() == 2);
    assert(100 <= n < 1000 ==> decimal(n).len() == 3 && decimal(n)[0] == digit(n / 100)) by {
        if 100 <= n < 1000 {
            assert(n / 10 / 10 == n / 100);
            assert(decimal(n / 10 / 10) == seq![digit(n / 100)]);
            assert(decimal(n / 10) == decimal(n / 10 / 10).push(digit(n / 10 % 10)));
            assert(decimal(n) == decimal(n / 10).push(digit(n % 10)));
        }
    }
    if n >= 1000 {
        assert(decimal(n) == decimal(n / 10).push(digit(n % 10)));
        assert(decimal(n / 10) == decimal(n / 10 / 10).push(digit(n / 10 % 10)));
        assert(decimal(n / 10 / 10) == decimal(n / 10 / 10 / 10).push(digit(n / 10 / 10 % 10)));
        numbers_have_digits(n / 10 / 10 / 10);
    }
}

proof fn numbers_have_digits(n: nat)
    ensures
        decimal(n).len() > 0,
{
}

/// A request goes to the API of the instance, at the path, with the query behind a question mark.
pub proof fn requests_go_to_the_instance(base: Seq<char>, path: Seq<char>, query: Seq<char>)
    ensures
        base.is_prefix_of(request_url(base, path, query)),
        request_url(base, path, query).skip(base.len() as int) == path + "?"@ + query,
{
    assert(request_url(base, path, query).skip(base.len() as int) =~= path + "?"@ + query);
    assert(request_url(base, path, query).take(base.len() as int) =~= base);
}

/// Two paths stand for the same segment of an address just where they are the same but for the
/// white space around them.
pub proof fn segments_stand_for_paths(a: Seq<char>, b: Seq<char>)
    ensures
        encoded_path(a) == encoded_path(b) <==> trimmed(a) == trimmed(b),
{
    if trimmed(a) != trimmed(b) {
        different_paths_are_different_segments(a, b);
    }
}

/// A page is asked for a hundred entries at a time, behind what is asked for; a later one by its
/// number.
pub proof fn pages_are_asked_for(filters: Seq<char>, page: Seq<char>)
    ensures
        page_query(filters, None) == filters + "&per_page="@ + decimal(100),
        page_query(filters, Some(page)) == filters + "&per_page="@ + decimal(100) + "&page="@ + page,
{
}

/// A walk through pages goes on just where the last page named a next one and fewer than twenty
/// were asked for; it then asks for that one, and it holds what all pages held, in their order.
pub proof fn walks_go_on_by_the_last_page<T>(pages: Seq<(Seq<T>, Option<Seq<char>>)>)
    ensures
        walked(pages).items == pages.map_values(
            |page: (Seq<T>, Option<Seq<char>>)| page.0,
        ).flatten(),
        walked(pages).open <==> pages.len() < 20 && (pages.len() > 0 ==> pages.last().1 is Some),
        pages.len() > 0 ==> walked(pages).cursor == pages.last().1,
        pages.len() == 0 ==> walked(pages).cursor is None,
{
    walk_gathers_and_ends(pages);
    if pages.len() > 0 {
        walk_gathers_and_ends(pages.drop_last());
    }
}

/// A walk asks first for the first page and then for the one that the last page named; it asks for
/// nothing once a page named none, or once twenty were asked for.
pub proof fn walks_ask_for_the_named_page<T>(
    pages: Seq<(Seq<T>, Option<Seq<char>>)>,
    filters: Seq<char>,
)
    ensures
        ({
            let asked = next_query(walked(pages), filters);
            let first = filters + "&per_page="@ + decimal(100);
            &&& pages.len() == 0 ==> asked == Some(first)
            &&& 0 < pages.len() < 20 ==> match pages.last().1 {
                Some(page) => asked == Some(first + "&page="@ + page),
                None => asked is None,
            }
            &&& pages.len() >= 20 ==> asked is None
        }),
{
    walks_go_on_by_the_last_page(pages);
    if pages.len() > 0 {
        if let Some(page) = pages.last().1 {
            pages_are_asked_for(filters, page);
        }
    } else {
        pages_are_asked_for(filters, filters);
    }
}

/// Of items only the open ones are asked for; of projects those that the user is a member of, or
/// those of a group and its subgroups.
pub proof fn filters_say_what_is_asked_for(page: Seq<char>)
    ensures
        page_query(OPEN_ITEMS_FILTER@, Some(page)) == "state=opened"@ + "&per_page="@ + decimal(100)
            + "&page="@ + page,
        page_query(MEMBERSHIP_PROJECTS_FILTER@, Some(page)) == "membership=true&simple=true"@
            + "&per_page="@ + decimal(100) + "&page="@ + page,
        page_query(GROUP_PROJECTS_FILTER@, Some(page)) == "include_subgroups=true&simple=true"@
            + "&per_page="@ + decimal(100) + "&page="@ + page,
{
}

/// What is told of a project goes by its label, tells how the fetch ended, and names no upstream.
pub proof fn projects_go_by_their_label(
    label: Seq<char>,
    outcome: Result<Vec<RepoItem>, GitlabHttpError>,
)
    ensures
        project_told(label, outcome).repo == label,
        project_told(label, outcome).upstream is None,
        project_told(label, outcome).status is Items <==> outcome is Ok,
        project_told(label, outcome).status is NotFound <==> (outcome matches Err(
            GitlabHttpError::Status(s),
        ) && s.spec_code() == 404),
        project_told(label, outcome).status matches StatusView::Items(items) ==> items == views(
            outcome->Ok_0@,
        ),
{
}

/// What fails of a project's lists is told: the merge requests before the issues.
pub proof fn the_first_list_that_fails_is_told<A, B>(
    mrs: Result<A, GitlabHttpError>,
    issues: Result<B, GitlabHttpError>,
)
    ensures
        list_failure(mrs, issues) is None <==> mrs is Ok && issues is Ok,
        mrs matches Err(e) ==> list_failure(mrs, issues) == Some(e),
        mrs is Ok ==> (issues matches Err(e) ==> list_failure(mrs, issues) == Some(e)),
{
}

/// An instance is reached just where its address has a host, which it goes by; its API stands behind
/// the address, and it is asked with the token of the environment, or with the configured one.
pub proof fn clients_follow_the_configuration(cfg: GitlabView, env: Option<Seq<char>>)
    ensures
        ({
            let url = instance_url(cfg.url);
            let host = instance_host(url, uri_parts(url));
            match built(cfg, env) {
                Ok(client) => {
                    &&& host == Ok::<Seq<char>, UrlErrorView>(client.host)
                    &&& client.base == api_base(url)
                    &&& client.token == chosen_token(env, cfg.token)
                },
                Err(e) => host == Err::<Seq<char>, UrlErrorView>(e),
            }
        }),
{
}

/// The host by which projects are shown is that of the configured instance, where there is one and
/// its address has a host.
pub proof fn the_configured_instance_names_the_host(cfg: ConfigView)
    ensures
        cfg.gitlab is None ==> configured_host(cfg) is None,
        cfg.gitlab matches Some(gitlab) ==> {
            let url = instance_url(gitlab.url);
            match instance_host(url, uri_parts(url)) {
                Ok(host) => configured_host(cfg) == Some(host),
                Err(_) => configured_host(cfg) is None,
            }
        },
{
}

/// The projects to pick from are those that were listed, each once, in the order of texts.
pub proof fn listed_projects_are_candidates(projects: Seq<GitlabProject>)
    ensures
        ({
            let out = project_candidates(projects);
            &&& forall|path: Seq<char>| #[trigger]
                out.contains(path) == exists|i: int|
                    0 <= i < projects.len() && (#[trigger] projects[i]).path_with_namespace@ == path
            &&& ascending(out)
        }),
{
    let paths = paths_of(projects);
    let out = project_candidates(projects);
    each_name_stands_once(paths);
    assert forall|path: Seq<char>| #[trigger] out.contains(path) == exists|i: int|
        0 <= i < projects.len() && (#[trigger] projects[i]).path_with_namespace@ == path by {
        assert(out.contains(path) == paths.contains(path));
        if paths.contains(path) {
            let i = choose|i: int| 0 <= i < paths.len() && paths[i] == path;
            assert(projects[i].path_with_namespace@ == path);
        }
        if exists|i: int|
            0 <= i < projects.len() && (#[trigger] projects[i]).path_with_namespace@ == path {
            let i = choose|i: int|
                0 <= i < projects.len() && (#[trigger] projects[i]).path_with_namespace@ == path;
            assert(paths[i] == path);
        }
    }
}

/// An address is that of an instance just where it is a URI of `http` or `https` with a host, which
/// is then that of the instance; else it is told what is wrong, first things first.
pub proof fn instances_have_scheme_and_host(
    url: Seq<char>,
    parts: Result<UriView, Seq<char>>,
)
    ensures
        ({
            let spoken = parts matches Ok(uri) && (uri.scheme == Some("http"@) || uri.scheme == Some(
                "https"@,
            ));
            &&& instance_host(url, parts) is Ok <==> spoken && parts->Ok_0.host is Some
            &&& instance_host(url, parts) matches Ok(host) ==> parts->Ok_0.host == Some(host)
            &&& parts matches Err(why) ==> instance_host(url, parts) == Err::<
                Seq<char>,
                UrlErrorView,
            >(UrlErrorView::Invalid { url, cause: why })
            &&& parts is Ok && !spoken ==> instance_host(url, parts) == Err::<
                Seq<char>,
                UrlErrorView,
            >(UrlErrorView::Scheme(url))
            &&& spoken && parts->Ok_0.host is None ==> instance_host(url, parts) == Err::<
                Seq<char>,
                UrlErrorView,
            >(UrlErrorView::NoHost(url))
        }),
{
}

/// The token of the environment is used wherever it is not blank, else the configured one is,
/// where that is not blank; either without the white space around it.
pub proof fn tokens_are_chosen(env: Option<Seq<char>>, configured: Option<Seq<char>>)
    ensures
        ({
            let blank = |text: Option<Seq<char>>|
                (text matches Some(text) ==> forall|k: int|
                    0 <= k < text.len() ==> is_white_space(#[trigger] text[k]));
            let token = chosen_token(env, configured);
            &&& !blank(env) ==> token is Some && bare(env->0, token->0)
            &&& blank(env) && !blank(configured) ==> token is Some && bare(configured->0, token->0)
            &&& blank(env) && blank(configured) ==> token is None
        }),
{
    if let Some(text) = env {
        blank_texts_count_as_none(text);
    }
    if let Some(text) = configured {
        blank_texts_count_as_none(text);
    }
}

/// A request says who asks and what it takes, and carries the token just where there is one.
pub proof fn requests_carry_the_token(token: Option<Seq<char>>)
    ensures
        request_headers(token).contains(("user-agent"@, "ghpending"@)),
        request_headers(token).contains(("accept"@, "application/json"@)),
        token matches Some(token) ==> request_headers(Some(token)).contains(
            ("PRIVATE-TOKEN"@, token),
        ),
        token is None ==> request_headers(token).len() == 2,
        token is Some ==> request_headers(token).len() == 3,
{
    assert(request_headers(token)[0] == ("user-agent"@, "ghpending"@));
    assert(request_headers(token)[1] == ("accept"@, "application/json"@));
    if let Some(text) = token {
        assert(request_headers(token)[2] == ("PRIVATE-TOKEN"@, text));
    }
}

/// The API is at "/api/v4" behind the address of the instance, from whose end slashes are taken and
/// nothing else.
pub proof fn the_api_stands_behind_the_address(url: Seq<char>)
    ensures
        exists|n: int|
            0 <= n <= url.len() && api_base(url) == #[trigger] url.take(n) + "/api/v4"@ && (n > 0
                ==> url[n - 1] != '/') && forall|k: int| n <= k < url.len() ==> #[trigger] url[k]
                == '/',
{
    trailing_slashes_go(url);
    let n = crate::text::trim_end(url, crate::text::equals('/')).len() as int;
    assert(api_base(url) == url.take(n) + "/api/v4"@);
    if n > 0 {
        assert(url.take(n).last() == url[n - 1]);
    }
}

/// The public instance is meant just where the configured address is blank; else the configured
/// one is, without the white space around it.
pub proof fn blank_addresses_mean_the_public_instance(url: Seq<char>)
    ensures
        ({
            let blank = forall|k: int| 0 <= k < url.len() ==> is_white_space(#[trigger] url[k]);
            &&& blank ==> instance_url(url) == "https://gitlab.com"@
            &&& !blank ==> bare(url, instance_url(url))
        }),
{
    trimming_takes_white_space_alone(url);
}

} // verus!
