//! GitLab: what its answers mean in terms of the model, and what to ask for.
//!
//! A merge request is a change request; an item goes by its number within the project. The list of
//! issues holds no merge requests.
use vstd::prelude::*;
use vstd::string::*;

use crate::gitlab_client::{
    alone, http_error_message, ChainView, ErrorChain, GitlabHttpError, Page,
};
use crate::http_status::{status_line, HttpStatus};
use crate::laws::gitlab::{
    listed_projects_are_candidates, project_items_tell_of_their_entries, tell_of_project,
};
use crate::laws::order::ascending;
use crate::model::{
    listed, sort_items, ErrorView, ItemKind, ItemView, RepoError, RepoItem, RepoResult, RepoStatus,
    ResultView, StatusView, Timestamp,
};
use crate::order::{in_text_order, sort_unique_names, without_repeats};
use crate::text::{
    decimal, decimal_of, opt_str, opt_text, texts, trim, trim_slashes, trimmed, unslashed, views,
};

verus! {

broadcast use {vstd::string::group_string_axioms, vstd::std_specs::hash::group_hash_axioms};

/// How many entries a page holds.
pub const PER_PAGE: u32 = 100;

/// How many pages are asked for at most, whatever the server goes on to offer.
pub const MAX_PAGES: u32 = 20;

/// Asks for what is open.
pub const OPEN_ITEMS_FILTER: &'static str = "state=opened";

/// Asks for the projects that the user is a member of.
pub const MEMBERSHIP_PROJECTS_FILTER: &'static str = "membership=true&simple=true";

/// Asks for the projects of a group and its subgroups.
pub const GROUP_PROJECTS_FILTER: &'static str = "include_subgroups=true&simple=true";

/// Who wrote an item.
#[derive(Debug)]
pub struct GitlabAuthor {
    pub username: String,
}

/// An issue in an answer.
#[derive(Debug)]
pub struct GitlabIssue {
    pub iid: u64,
    pub title: String,
    pub created_at: Timestamp,
    pub author: Option<GitlabAuthor>,
}

/// A merge request in an answer.
#[derive(Debug)]
pub struct GitlabMr {
    pub iid: u64,
    pub title: String,
    pub created_at: Timestamp,
    pub author: Option<GitlabAuthor>,
    pub draft: bool,
}

/// A project in an answer.
#[derive(Debug)]
pub struct GitlabProject {
    pub path_with_namespace: String,
}

/// The hexadecimal digit of `n`, in upper case.
pub open spec fn hex_digit(n: u8) -> char {
    if n < 10 {
        ('0' as u8 + n) as char
    } else {
        ('A' as u8 + (n - 10)) as char
    }
}

/// Whether a byte is an ASCII letter or digit.
pub open spec fn alphanumeric(b: u8) -> bool {
    ||| '0' as u8 <= b <= '9' as u8
    ||| 'A' as u8 <= b <= 'Z' as u8
    ||| 'a' as u8 <= b <= 'z' as u8
}

/// How a byte stands in a percent-encoded text.
pub open spec fn encoded_byte(b: u8) -> Seq<char> {
    if alphanumeric(b) {
        seq![b as char]
    } else {
        seq!['%', hex_digit(b / 16), hex_digit(b % 16)]
    }
}

/// The percent-encoded text of `bytes`.
pub open spec fn percent_encoded(bytes: Seq<u8>) -> Seq<char>
    decreases bytes.len(),
{
    if bytes.len() == 0 {
        Seq::empty()
    } else {
        percent_encoded(bytes.drop_last()) + encoded_byte(bytes.last())
    }
}

/// Percent-encodes a text by `percent_encoding::utf8_percent_encode` with `NON_ALPHANUMERIC`: of
/// its UTF-8 bytes, the ASCII letters and digits stay, and any other becomes `%` and two
/// hexadecimal digits in upper case.
#[verifier::external_body]
fn percent_encode(text: &str) -> (res: String)
    ensures
        res@ == percent_encoded(vstd::utf8::encode_utf8(text@)),
{
    percent_encoding::utf8_percent_encode(text, percent_encoding::NON_ALPHANUMERIC).to_string()
}

/// A project's path as one segment of an address.
pub open spec fn encoded_path(path: Seq<char>) -> Seq<char> {
    percent_encoded(vstd::utf8::encode_utf8(trimmed(path)))
}

/// A project's path as one segment of an address: `group/app` becomes `group%2Fapp`.
pub fn encode_project_path(path: &str) -> (res: String)
    ensures
        res@ == encoded_path(path@),
{
    percent_encode(trim(path))
}

/// An encoded path is one segment: it holds letters, digits and percent signs alone, and no slash.
pub proof fn encoded_path_is_one_segment(path: Seq<char>)
    ensures
        forall|i: int|
            0 <= i < encoded_path(path).len() ==> {
                let c = #[trigger] encoded_path(path)[i];
                &&& c != '/'
                &&& c == '%' || '0' <= c <= '9' || 'A' <= c <= 'Z' || 'a' <= c <= 'z'
            },
{
    percent_encoded_is_plain(vstd::utf8::encode_utf8(trimmed(path)));
}

proof fn percent_encoded_is_plain(bytes: Seq<u8>)
    ensures
        forall|i: int|
            0 <= i < percent_encoded(bytes).len() ==> {
                let c = #[trigger] percent_encoded(bytes)[i];
                &&& c != '/'
                &&& c == '%' || '0' <= c <= '9' || 'A' <= c <= 'Z' || 'a' <= c <= 'z'
            },
    decreases bytes.len(),
{
    if bytes.len() > 0 {
        percent_encoded_is_plain(bytes.drop_last());
        let head = percent_encoded(bytes.drop_last());
        let tail = encoded_byte(bytes.last());
        assert forall|i: int| 0 <= i < percent_encoded(bytes).len() implies {
            let c = #[trigger] percent_encoded(bytes)[i];
            &&& c != '/'
            &&& c == '%' || '0' <= c <= '9' || 'A' <= c <= 'Z' || 'a' <= c <= 'z'
        } by {
            if i < head.len() {
                assert(percent_encoded(bytes)[i] == head[i]);
            } else {
                assert(percent_encoded(bytes)[i] == tail[i - head.len()]);
            }
        }
    }
}

/// Where a project's issues are.
pub open spec fn issues_address(project_path: Seq<char>) -> Seq<char> {
    "/projects/"@ + encoded_path(project_path) + "/issues"@
}

/// Where a project's merge requests are.
pub open spec fn merge_requests_address(project_path: Seq<char>) -> Seq<char> {
    "/projects/"@ + encoded_path(project_path) + "/merge_requests"@
}

/// Where a group's projects are.
pub open spec fn group_projects_address(group: Seq<char>) -> Seq<char> {
    "/groups/"@ + encoded_path(group) + "/projects"@
}

/// Where a project's issues are.
pub fn issues_path(project_path: &str) -> (res: String)
    ensures
        res@ == issues_address(project_path@),
{
    let mut path = "/projects/".to_owned();
    path.append(encode_project_path(project_path).as_str());
    path.append("/issues");
    path
}

/// Where a project's merge requests are.
pub fn merge_requests_path(project_path: &str) -> (res: String)
    ensures
        res@ == merge_requests_address(project_path@),
{
    let mut path = "/projects/".to_owned();
    path.append(encode_project_path(project_path).as_str());
    path.append("/merge_requests");
    path
}

/// Where a group's projects are.
pub fn group_projects_path(group: &str) -> (res: String)
    ensures
        res@ == group_projects_address(group@),
{
    let mut path = "/groups/".to_owned();
    path.append(encode_project_path(group).as_str());
    path.append("/projects");
    path
}

/// The name of an item's author.
pub open spec fn username_of(author: Option<GitlabAuthor>) -> Seq<char> {
    match author {
        Some(author) => author.username@,
        None => "unknown"@,
    }
}

/// The name of an item's author; that of a deleted account is unknown.
pub fn author_name(author: Option<GitlabAuthor>) -> (res: String)
    ensures
        res@ == username_of(author),
{
    match author {
        Some(author) => author.username,
        None => "unknown".to_owned(),
    }
}

/// The query for a page of what `filters` ask for.
pub open spec fn page_query(filters: Seq<char>, page: Option<Seq<char>>) -> Seq<char> {
    let base = filters + "&per_page="@ + decimal(PER_PAGE as nat);
    match page {
        Some(page) => base + "&page="@ + page,
        None => base,
    }
}

/// The query for a page of what `filters` ask for; the first page where none is named.
pub fn build_query(filters: &str, page: Option<&str>) -> (res: String)
    ensures
        res@ == page_query(filters@, opt_str(page)),
{
    let mut query = filters.to_owned();
    query.append("&per_page=");
    query.append(decimal_of(PER_PAGE as u64).as_str());
    if let Some(page) = page {
        query.append("&page=");
        query.append(page);
    }
    query
}

/// How far a walk through pages has come.
pub struct PagerView<T> {
    /// What the pages held.
    pub items: Seq<T>,
    /// How many pages there were.
    pub asked: nat,
    /// The page to ask for.
    pub cursor: Option<Seq<char>>,
    /// Whether a page is to be asked for.
    pub open: bool,
}

/// The start of a walk.
pub open spec fn first_page<T>() -> PagerView<T> {
    PagerView { items: Seq::empty(), asked: 0, cursor: None, open: true }
}

/// The walk behind one more page.
pub open spec fn turned<T>(walk: PagerView<T>, items: Seq<T>, next: Option<Seq<char>>) -> PagerView<
    T,
> {
    PagerView {
        items: walk.items + items,
        asked: walk.asked + 1,
        cursor: next,
        open: next is Some && walk.asked + 1 < MAX_PAGES,
    }
}

/// The query for the next page of what `filters` ask for; none where the walk is over.
pub open spec fn next_query<T>(walk: PagerView<T>, filters: Seq<char>) -> Option<Seq<char>> {
    if walk.open {
        Some(page_query(filters, walk.cursor))
    } else {
        None
    }
}

/// A walk through the pages of a list.
#[derive(Debug)]
pub struct Pager<T> {
    items: Vec<T>,
    asked: u32,
    cursor: Option<String>,
    open: bool,
}

impl<T> View for Pager<T> {
    type V = PagerView<T>;

    closed spec fn view(&self) -> PagerView<T> {
        PagerView {
            items: self.items@,
            asked: self.asked as nat,
            cursor: opt_text(self.cursor),
            open: self.open,
        }
    }
}

impl<T> Pager<T> {
    /// Whether the bound on pages is kept.
    pub open spec fn wf(&self) -> bool {
        &&& self@.asked <= MAX_PAGES
        &&& self@.open ==> self@.asked < MAX_PAGES
    }

    /// Before the first page.
    pub fn new() -> (res: Self)
        ensures
            res.wf(),
            res@ == first_page::<T>(),
    {
        Pager { items: Vec::new(), asked: 0, cursor: None, open: true }
    }

    /// The query for the next page of what `filters` ask for; none where the walk is over.
    pub fn query(&self, filters: &str) -> (res: Option<String>)
        ensures
            opt_text(res) == next_query(self@, filters@),
    {
        if !self.open {
            return None;
        }
        let page = match &self.cursor {
            Some(page) => Some(page.as_str()),
            None => None,
        };
        Some(build_query(filters, page))
    }

    /// Takes in a page.
    pub fn on_page(&mut self, page: Page<Vec<T>>)
        requires
            old(self).wf(),
            old(self)@.open,
        ensures
            final(self).wf(),
            final(self)@ == turned(old(self)@, page.items@, opt_text(page.next_page)),
    {
        let mut items = page.items;
        let ghost had = self.items@;
        self.items.append(&mut items);
        assert(self.items@ == had + page.items@);
        self.asked = self.asked + 1;
        self.open = page.next_page.is_some() && self.asked < MAX_PAGES;
        self.cursor = page.next_page;
    }

    /// What the pages held, in their order.
    pub fn finish(self) -> (res: Vec<T>)
        ensures
            res@ == self@.items,
    {
        self.items
    }
}

/// The walk through `pages`, each with where it says the next one is.
pub open spec fn walked<T>(pages: Seq<(Seq<T>, Option<Seq<char>>)>) -> PagerView<T>
    decreases pages.len(),
{
    if pages.len() == 0 {
        first_page()
    } else {
        turned(walked(pages.drop_last()), pages.last().0, pages.last().1)
    }
}

/// A walk gathers what all its pages held, in their order; it ends with the first page that names
/// no next one, and after `MAX_PAGES` pages whatever they name.
pub proof fn walk_gathers_and_ends<T>(pages: Seq<(Seq<T>, Option<Seq<char>>)>)
    ensures
        walked(pages).items == pages.map_values(
            |page: (Seq<T>, Option<Seq<char>>)| page.0,
        ).flatten(),
        walked(pages).asked == pages.len(),
        pages.len() >= MAX_PAGES ==> !walked(pages).open,
        pages.len() > 0 && pages.last().1 is None ==> !walked(pages).open,
    decreases pages.len(),
{
    let all = pages.map_values(|page: (Seq<T>, Option<Seq<char>>)| page.0);
    if pages.len() > 0 {
        let t = pages.drop_last();
        walk_gathers_and_ends(t);
        let head = t.map_values(|page: (Seq<T>, Option<Seq<char>>)| page.0);
        assert(all =~= head.push(pages.last().0));
        head.lemma_flatten_push(pages.last().0);
    } else {
        assert(all =~= Seq::empty());
    }
}

/// The item that a merge request makes. The answer does not tell when it was last touched; the
/// time of its creation stands in.
pub open spec fn mr_view(mr: GitlabMr) -> ItemView {
    ItemView {
        kind: ItemKind::PullRequest,
        number: mr.iid,
        title: mr.title@,
        created_at: mr.created_at,
        updated_at: mr.created_at,
        author: username_of(mr.author),
        pr_draft: Some(mr.draft),
        comments: None,
        review_decision: None,
        mine: false,
    }
}

/// The item that an issue makes.
pub open spec fn issue_view(issue: GitlabIssue) -> ItemView {
    ItemView {
        kind: ItemKind::Issue,
        number: issue.iid,
        title: issue.title@,
        created_at: issue.created_at,
        updated_at: issue.created_at,
        author: username_of(issue.author),
        pr_draft: None,
        comments: None,
        review_decision: None,
        mine: false,
    }
}

/// A project's items, in the order of the listing.
pub open spec fn project_listing(mrs: Seq<GitlabMr>, issues: Seq<GitlabIssue>) -> Seq<ItemView> {
    listed(
        mrs.map_values(|mr: GitlabMr| mr_view(mr)) + issues.map_values(
            |issue: GitlabIssue| issue_view(issue),
        ),
    )
}

/// A project's items, in the order of the listing.
pub fn project_items(mrs: Vec<GitlabMr>, issues: Vec<GitlabIssue>) -> (res: Vec<RepoItem>)
    ensures
        views(res@) == project_listing(mrs@, issues@),
        tell_of_project(views(res@), mrs@, issues@),
{
    proof {
        project_items_tell_of_their_entries(mrs@, issues@);
    }
    let ghost of_mrs = mrs@.map_values(|mr: GitlabMr| mr_view(mr));
    let ghost of_issues = issues@.map_values(|issue: GitlabIssue| issue_view(issue));
    let mut items: Vec<RepoItem> = Vec::new();
    assert(views(items@) =~= of_mrs.take(0));
    for mr in it: mrs
        invariant
            it.seq() == mrs@,
            of_mrs == mrs@.map_values(|mr: GitlabMr| mr_view(mr)),
            views(items@) == of_mrs.take(it.index() as int),
    {
        let ghost had = views(items@);
        let ghost view = mr_view(mr);
        items.push(
            RepoItem {
                kind: ItemKind::PullRequest,
                number: mr.iid,
                title: mr.title,
                created_at: mr.created_at,
                updated_at: mr.created_at,
                author: author_name(mr.author),
                pr_draft: Some(mr.draft),
                comments: None,
                review_decision: None,
                mine: false,
            },
        );
        assert(views(items@) =~= had.push(view));
        assert(of_mrs.take(it.index() + 1) =~= of_mrs.take(it.index() as int).push(view));
    }
    assert(of_mrs.take(of_mrs.len() as int) =~= of_mrs);
    assert(of_mrs + of_issues.take(0) =~= of_mrs);
    for issue in it: issues
        invariant
            it.seq() == issues@,
            of_issues == issues@.map_values(|issue: GitlabIssue| issue_view(issue)),
            views(items@) == of_mrs + of_issues.take(it.index() as int),
    {
        let ghost had = views(items@);
        let ghost view = issue_view(issue);
        items.push(
            RepoItem {
                kind: ItemKind::Issue,
                number: issue.iid,
                title: issue.title,
                created_at: issue.created_at,
                updated_at: issue.created_at,
                author: author_name(issue.author),
                pr_draft: None,
                comments: None,
                review_decision: None,
                mine: false,
            },
        );
        assert(views(items@) =~= had.push(view));
        assert(of_issues.take(it.index() + 1) =~= of_issues.take(it.index() as int).push(view));
    }
    assert(of_issues.take(of_issues.len() as int) =~= of_issues);
    sort_items(items)
}

/// What fails of a project's lists: the merge requests before the issues.
pub open spec fn list_failure<A, B>(
    mrs: Result<A, GitlabHttpError>,
    issues: Result<B, GitlabHttpError>,
) -> Option<GitlabHttpError> {
    match (mrs, issues) {
        (Err(e), _) => Some(e),
        (Ok(_), Err(e)) => Some(e),
        _ => None,
    }
}

/// What comes of asking for a project: a failure of the merge requests is told before one of the
/// issues.
pub fn project_outcome(
    mrs: Result<Vec<GitlabMr>, GitlabHttpError>,
    issues: Result<Vec<GitlabIssue>, GitlabHttpError>,
) -> (res: Result<Vec<RepoItem>, GitlabHttpError>)
    ensures
        list_failure(mrs, issues) matches Some(e) ==> res == Err::<Vec<RepoItem>, GitlabHttpError>(e),
        match (mrs, issues) {
            (Err(e), _) => res == Err::<Vec<RepoItem>, GitlabHttpError>(e),
            (Ok(_), Err(e)) => res == Err::<Vec<RepoItem>, GitlabHttpError>(e),
            (Ok(mrs), Ok(issues)) => res matches Ok(items) && views(items@) == project_listing(
                mrs@,
                issues@,
            ),
        },
        mrs is Ok && issues is Ok ==> res is Ok && tell_of_project(
            views(res->Ok_0@),
            mrs->Ok_0@,
            issues->Ok_0@,
        ),
{
    match mrs {
        Ok(mrs) => match issues {
            Ok(issues) => Ok(project_items(mrs, issues)),
            Err(e) => Err(e),
        },
        Err(e) => Err(e),
    }
}

/// How asking for a project ended.
pub open spec fn project_status(outcome: Result<Vec<RepoItem>, GitlabHttpError>) -> StatusView {
    match outcome {
        Ok(items) => StatusView::Items(views(items@)),
        Err(GitlabHttpError::Status(status)) => if status.spec_code() == 404 {
            StatusView::NotFound
        } else {
            StatusView::Error(ErrorView::Api("http "@ + status_line(status.spec_code())))
        },
        Err(GitlabHttpError::Other(chain)) => StatusView::Error(ErrorView::Api(chain@.message)),
    }
}

/// What is told of the project that goes by `label`.
pub open spec fn project_told(
    label: Seq<char>,
    outcome: Result<Vec<RepoItem>, GitlabHttpError>,
) -> ResultView {
    ResultView { repo: label, status: project_status(outcome), upstream: None }
}

/// The result of the project that the digest calls `label`.
pub fn project_result(label: &str, outcome: Result<Vec<RepoItem>, GitlabHttpError>) -> (res:
    RepoResult)
    ensures
        res@ == project_told(label@, outcome),
{
    let status = match outcome {
        Ok(items) => RepoStatus::Items(items),
        Err(e) => {
            let missing = match &e {
                GitlabHttpError::Status(status) => status.code() == 404,
                GitlabHttpError::Other(_) => false,
            };
            if missing {
                RepoStatus::NotFound
            } else {
                RepoStatus::Error(RepoError::Api(e.message()))
            }
        },
    };
    RepoResult::new(label.to_owned(), status)
}

/// What the digest calls a project.
pub open spec fn label_of(host: Seq<char>, project_path: Seq<char>) -> Seq<char> {
    host + "/"@ + unslashed(trimmed(project_path))
}

/// What the digest calls a project: its path behind the host, so that it is told apart from a
/// GitHub repository.
pub fn project_label(host: &str, project_path: &str) -> (res: String)
    ensures
        res@ == label_of(host@, project_path@),
{
    let mut label = host.to_owned();
    label.append("/");
    label.append(trim_slashes(trim(project_path)));
    label
}

/// The paths of projects.
pub open spec fn paths_of(projects: Seq<GitlabProject>) -> Seq<Seq<char>> {
    projects.map_values(|project: GitlabProject| project.path_with_namespace@)
}

/// The projects to pick from: the paths that were listed, each once, in their order.
pub open spec fn project_candidates(projects: Seq<GitlabProject>) -> Seq<Seq<char>> {
    without_repeats(in_text_order(paths_of(projects)))
}

/// The paths of the listed projects, in the order of texts, each once.
pub fn sorted_paths(projects: Vec<GitlabProject>) -> (res: Vec<String>)
    ensures
        texts(res@) == project_candidates(projects@),
        ascending(texts(res@)),
{
    proof {
        listed_projects_are_candidates(projects@);
    }
    let ghost all = paths_of(projects@);
    let mut paths: Vec<String> = Vec::new();
    assert(texts(paths@) =~= all.take(0));
    for project in it: projects
        invariant
            it.seq() == projects@,
            all == paths_of(projects@),
            texts(paths@) == all.take(it.index() as int),
    {
        let ghost had = texts(paths@);
        let ghost path = project.path_with_namespace@;
        paths.push(project.path_with_namespace);
        assert(texts(paths@) =~= had.push(path));
        assert(all.take(it.index() + 1) =~= all.take(it.index() as int).push(path));
    }
    assert(all.take(all.len() as int) =~= all);
    sort_unique_names(paths)
}

/// What tells of a listing that failed.
pub open spec fn listing_error(e: GitlabHttpError) -> ChainView {
    match e {
        GitlabHttpError::Status(status) => alone(listing_refusal(status)),
        GitlabHttpError::Other(chain) => chain@,
    }
}

/// The line that tells of a listing that was answered with `status`.
pub open spec fn listing_refusal(status: HttpStatus) -> Seq<char> {
    if status.spec_code() == 401 || status.spec_code() == 403 {
        "GitLab refused the request (http "@ + status_line(status.spec_code())
            + "). Set GITLAB_TOKEN to a personal access token with the `read_api` scope."@
    } else if status.spec_code() == 404 {
        "not found (http 404) \u{2014} check the group path and your access"@
    } else {
        http_error_message(GitlabHttpError::Status(status))
    }
}

/// What tells of a listing that failed, with the way out where a token is missing or may not read.
/// A request that got no usable answer is told as it is, with its causes.
pub fn describe_listing_error(err: GitlabHttpError) -> (res: ErrorChain)
    ensures
        res@ == listing_error(err),
{
    match err {
        GitlabHttpError::Status(status) => {
            let code = status.code();
            let text = if code == 401 || code == 403 {
                let mut text = "GitLab refused the request (http ".to_owned();
                text.append(status.text().as_str());
                text.append(
                    "). Set GITLAB_TOKEN to a personal access token with the `read_api` scope.",
                );
                text
            } else if code == 404 {
                "not found (http 404) \u{2014} check the group path and your access".to_owned()
            } else {
                GitlabHttpError::Status(status).message()
            };
            ErrorChain::new(text)
        },
        GitlabHttpError::Other(chain) => chain,
    }
}

/// Different paths are different segments: no two projects are taken for each other.
pub proof fn different_paths_are_different_segments(a: Seq<char>, b: Seq<char>)
    requires
        trimmed(a) != trimmed(b),
    ensures
        encoded_path(a) != encoded_path(b),
{
    broadcast use vstd::utf8::encode_utf8_decode_utf8;

    let x = vstd::utf8::encode_utf8(trimmed(a));
    let y = vstd::utf8::encode_utf8(trimmed(b));
    assert(vstd::utf8::decode_utf8(x) == trimmed(a));
    assert(vstd::utf8::decode_utf8(y) == trimmed(b));
    if percent_encoded(x) == percent_encoded(y) {
        percent_encoding_is_injective(x, y);
    }
}

/// A percent-encoded text begins with its first byte.
proof fn percent_encoded_front(bytes: Seq<u8>)
    requires
        bytes.len() > 0,
    ensures
        percent_encoded(bytes) == encoded_byte(bytes[0]) + percent_encoded(bytes.drop_first()),
    decreases bytes.len(),
{
    if bytes.len() == 1 {
        assert(bytes.drop_last() =~= Seq::empty());
        assert(bytes.drop_first() =~= Seq::empty());
        assert(bytes.last() == bytes[0]);
        assert(percent_encoded(Seq::<u8>::empty()) =~= Seq::empty());
        assert(percent_encoded(bytes) =~= encoded_byte(bytes[0]));
        assert(encoded_byte(bytes[0]) + percent_encoded(bytes.drop_first()) =~= encoded_byte(
            bytes[0],
        ));
    } else {
        let t = bytes.drop_last();
        percent_encoded_front(t);
        assert(t.drop_first() =~= bytes.drop_first().drop_last());
        assert(bytes.drop_first().last() == bytes.last());
        assert(percent_encoded(bytes) =~= encoded_byte(bytes[0]) + percent_encoded(
            bytes.drop_first(),
        ));
    }
}

proof fn hex_digits_tell_bytes_apart(a: u8, b: u8)
    requires
        hex_digit(a / 16) == hex_digit(b / 16),
        hex_digit(a % 16) == hex_digit(b % 16),
    ensures
        a == b,
{
}

proof fn percent_encoding_is_injective(x: Seq<u8>, y: Seq<u8>)
    requires
        percent_encoded(x) == percent_encoded(y),
    ensures
        x == y,
    decreases x.len(),
{
    if x.len() == 0 || y.len() == 0 {
        if x.len() > 0 {
            percent_encoded_front(x);
            assert(percent_encoded(x).len() > 0);
        }
        if y.len() > 0 {
            percent_encoded_front(y);
            assert(percent_encoded(y).len() > 0);
        }
        assert(x =~= y);
    } else {
        percent_encoded_front(x);
        percent_encoded_front(y);
        let s = percent_encoded(x);
        let p = encoded_byte(x[0]);
        let q = encoded_byte(y[0]);
        assert(s[0] == p[0]);
        assert(s[0] == q[0]);
        assert(p.len() == q.len());
        assert(p.len() == 3 ==> s[1] == p[1] && s[2] == p[2]);
        assert(q.len() == 3 ==> s[1] == q[1] && s[2] == q[2]);
        if p.len() == 3 {
            hex_digits_tell_bytes_apart(x[0], y[0]);
        }
        assert(x[0] == y[0]);
        assert(percent_encoded(x.drop_first()) =~= s.skip(p.len() as int));
        assert(percent_encoded(y.drop_first()) =~= s.skip(q.len() as int));
        percent_encoding_is_injective(x.drop_first(), y.drop_first());
        assert(x =~= seq![x[0]] + x.drop_first());
        assert(y =~= seq![y[0]] + y.drop_first());
    }
}

} // verus!
