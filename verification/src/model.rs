//! What is watched, in terms that hold for every forge.
//!
//! Whatever answers a fetch is put into these types. Ordering knows nothing about where an item
//! came from.
use std::cmp::Ordering;

use vstd::prelude::*;

use crate::order::{sort_by, stable_sort, strict_weak_order};
use crate::text::views;

verus! {

/// An instant: whole seconds since the Unix epoch and the nanoseconds that follow them.
#[derive(Debug, Clone, Copy, PartialEq, Eq, Structural)]
pub struct Timestamp {
    pub secs: i64,
    pub nanos: u32,
}

/// Whether `a` is earlier than `b`.
pub open spec fn earlier(a: Timestamp, b: Timestamp) -> bool {
    a.secs < b.secs || (a.secs == b.secs && a.nanos < b.nanos)
}

impl Timestamp {
    /// Whether this instant is earlier than `other`.
    pub fn is_before(&self, other: &Timestamp) -> (res: bool)
        ensures
            res == earlier(*self, *other),
    {
        self.secs < other.secs || (self.secs == other.secs && self.nanos < other.nanos)
    }
}

/// The two kinds of pending item.
#[derive(Debug, Clone, Copy, PartialEq, Eq, Structural)]
pub enum ItemKind {
    PullRequest,
    Issue,
}

/// An open issue or change request.
#[derive(Debug)]
pub struct RepoItem {
    pub kind: ItemKind,
    pub number: u64,
    pub title: String,
    pub created_at: Timestamp,
    pub updated_at: Timestamp,
    pub author: String,
    pub pr_draft: Option<bool>,
    pub comments: Option<u64>,
    pub review_decision: Option<String>,
    /// Whether the user of the digest wrote the item.
    pub mine: bool,
}

/// What a `RepoItem` says.
pub struct ItemView {
    pub kind: ItemKind,
    pub number: u64,
    pub title: Seq<char>,
    pub created_at: Timestamp,
    pub updated_at: Timestamp,
    pub author: Seq<char>,
    pub pr_draft: Option<bool>,
    pub comments: Option<u64>,
    pub review_decision: Option<Seq<char>>,
    pub mine: bool,
}

impl View for RepoItem {
    type V = ItemView;

    open spec fn view(&self) -> ItemView {
        ItemView {
            kind: self.kind,
            number: self.number,
            title: self.title@,
            created_at: self.created_at,
            updated_at: self.updated_at,
            author: self.author@,
            pr_draft: self.pr_draft,
            comments: self.comments,
            review_decision: crate::text::opt_text(self.review_decision),
            mine: self.mine,
        }
    }
}

impl Clone for RepoItem {
    fn clone(&self) -> (res: Self)
        ensures
            res@ == self@,
    {
        let review_decision = match &self.review_decision {
            Some(words) => Some(words.clone()),
            None => None,
        };
        RepoItem {
            kind: self.kind,
            number: self.number,
            title: self.title.clone(),
            created_at: self.created_at,
            updated_at: self.updated_at,
            author: self.author.clone(),
            pr_draft: self.pr_draft,
            comments: self.comments,
            review_decision,
            mine: self.mine,
        }
    }
}

/// Why a fetch failed.
#[derive(Debug, PartialEq, Eq)]
pub enum RepoError {
    Timeout,
    Api(String),
}

/// What a `RepoError` says.
pub enum ErrorView {
    Timeout,
    Api(Seq<char>),
}

impl View for RepoError {
    type V = ErrorView;

    open spec fn view(&self) -> ErrorView {
        match self {
            RepoError::Timeout => ErrorView::Timeout,
            RepoError::Api(text) => ErrorView::Api(text@),
        }
    }
}

impl Clone for RepoError {
    fn clone(&self) -> (res: Self)
        ensures
            res@ == self@,
    {
        match self {
            RepoError::Timeout => RepoError::Timeout,
            RepoError::Api(text) => RepoError::Api(text.clone()),
        }
    }
}

/// The line that tells the user of a failure.
pub open spec fn error_message(error: ErrorView) -> Seq<char> {
    match error {
        ErrorView::Timeout => "timeout after 30s"@,
        ErrorView::Api(text) => text,
    }
}

impl RepoError {
    /// The line that tells the user of the failure.
    pub fn message(&self) -> (res: String)
        ensures
            res@ == error_message(self@),
    {
        match self {
            RepoError::Timeout => "timeout after 30s".to_owned(),
            RepoError::Api(text) => text.clone(),
        }
    }
}

/// How the fetch of one repository ended.
#[derive(Debug)]
pub enum RepoStatus {
    Items(Vec<RepoItem>),
    NotFound,
    Error(RepoError),
}

/// What a `RepoStatus` says.
pub enum StatusView {
    Items(Seq<ItemView>),
    NotFound,
    Error(ErrorView),
}

impl View for RepoStatus {
    type V = StatusView;

    open spec fn view(&self) -> StatusView {
        match self {
            RepoStatus::Items(items) => StatusView::Items(views(items@)),
            RepoStatus::NotFound => StatusView::NotFound,
            RepoStatus::Error(error) => StatusView::Error(error@),
        }
    }
}

impl Clone for RepoStatus {
    fn clone(&self) -> (res: Self)
        ensures
            res@ == self@,
    {
        match self {
            RepoStatus::Items(items) => {
                let mut copy: Vec<RepoItem> = Vec::new();
                let mut i: usize = 0;
                while i < items.len()
                    invariant
                        i <= items@.len(),
                        copy@.len() == i,
                        forall|k: int| 0 <= k < i ==> (#[trigger] copy@[k])@ == items@[k]@,
                    decreases items@.len() - i,
                {
                    copy.push(items[i].clone());
                    i = i + 1;
                }
                assert(views(copy@) =~= views(items@));
                RepoStatus::Items(copy)
            },
            RepoStatus::NotFound => RepoStatus::NotFound,
            RepoStatus::Error(error) => RepoStatus::Error(error.clone()),
        }
    }
}

/// What became of one watched repository.
#[derive(Debug)]
pub struct RepoResult {
    /// The label that the digest shows.
    pub repo: String,
    pub status: RepoStatus,
    /// The upstream of a fork, where `status` holds the user's items there in place of the
    /// fork's own.
    pub upstream: Option<String>,
}

/// What a `RepoResult` says.
pub struct ResultView {
    pub repo: Seq<char>,
    pub status: StatusView,
    pub upstream: Option<Seq<char>>,
}

impl View for RepoResult {
    type V = ResultView;

    open spec fn view(&self) -> ResultView {
        ResultView {
            repo: self.repo@,
            status: self.status@,
            upstream: crate::text::opt_text(self.upstream),
        }
    }
}

impl Clone for RepoResult {
    fn clone(&self) -> (res: Self)
        ensures
            res@ == self@,
    {
        let upstream = match &self.upstream {
            Some(upstream) => Some(upstream.clone()),
            None => None,
        };
        RepoResult { repo: self.repo.clone(), status: self.status.clone(), upstream }
    }
}

impl RepoResult {
    /// A result that concerns no upstream.
    pub fn new(repo: String, status: RepoStatus) -> (res: Self)
        ensures
            res@ == (ResultView { repo: repo@, status: status@, upstream: None }),
    {
        RepoResult { repo, status, upstream: None }
    }

    /// The same result, told of `upstream`.
    pub fn with_upstream(self, upstream: String) -> (res: Self)
        ensures
            res@ == (ResultView { upstream: Some(upstream@), ..self@ }),
    {
        RepoResult { repo: self.repo, status: self.status, upstream: Some(upstream) }
    }
}

/// Whether `a` is listed before `b`: change requests before issues, then the higher number.
pub open spec fn item_before(a: ItemView, b: ItemView) -> bool {
    match (a.kind, b.kind) {
        (ItemKind::PullRequest, ItemKind::Issue) => true,
        (ItemKind::Issue, ItemKind::PullRequest) => false,
        _ => a.number > b.number,
    }
}

/// The listing order as a predicate value.
pub open spec fn item_order() -> spec_fn(ItemView, ItemView) -> bool {
    |a: ItemView, b: ItemView| item_before(a, b)
}

/// `items` in the order of the listing.
pub open spec fn listed(items: Seq<ItemView>) -> Seq<ItemView> {
    stable_sort(items, item_order())
}

/// The listing order is a strict order whose ties form groups.
pub proof fn item_order_is_strict_weak()
    ensures
        strict_weak_order(item_order()),
{
}

/// How `a` and `b` stand to each other in the listing.
pub fn item_cmp(a: &RepoItem, b: &RepoItem) -> (res: Ordering)
    ensures
        (res == Ordering::Less) == item_before(a@, b@),
        (res == Ordering::Greater) == item_before(b@, a@),
        (res == Ordering::Equal) == (!item_before(a@, b@) && !item_before(b@, a@)),
{
    match (a.kind, b.kind) {
        (ItemKind::PullRequest, ItemKind::Issue) => Ordering::Less,
        (ItemKind::Issue, ItemKind::PullRequest) => Ordering::Greater,
        _ => if a.number > b.number {
            Ordering::Less
        } else if a.number < b.number {
            Ordering::Greater
        } else {
            Ordering::Equal
        },
    }
}

/// `items` in the order of the listing.
pub fn sort_items(items: Vec<RepoItem>) -> (res: Vec<RepoItem>)
    ensures
        views(res@) == listed(views(items@)),
{
    let less = |a: &RepoItem, b: &RepoItem| -> (r: bool)
        ensures
            r == item_before(a@, b@),
        {
            match item_cmp(a, b) {
                Ordering::Less => true,
                _ => false,
            }
        };
    proof {
        item_order_is_strict_weak();
    }
    sort_by(items, less, Ghost(item_order()))
}

} // verus!
