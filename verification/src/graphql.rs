//! GitHub's GraphQL interface: many repositories in one query.
//!
//! Each repository of a chunk goes by an alias of its own in the query. What an answer holds under
//! an alias, data or errors, concerns that repository alone; an error that names no alias concerns
//! the whole chunk.
use std::collections::HashSet;

use vstd::prelude::*;
use vstd::string::*;

use crate::clock::utc_now;
use crate::github::{
    ghost_login, numbers_of, opt_set, retain_subscribed, retained, wanted_numbers, SubscribedItems,
};
use crate::laws::graphql::{
    answers_are_read_by_alias, found_items_tell_of_their_nodes, says_of_fork, says_of_repo,
    searches_are_read_by_alias, tell_of_search,
};
use crate::model::{
    listed, sort_items, ErrorView, ItemKind, ItemView, RepoError, RepoItem, RepoResult, RepoStatus,
    ResultView, StatusView, Timestamp,
};
use crate::name_map::NameMap;
use crate::text::{decimal, decimal_of, join, join_all, opt_text, same, texts, views};

verus! {

broadcast use {vstd::string::group_string_axioms, vstd::std_specs::hash::group_hash_axioms};

/// How many repositories go into one query.
pub const CHUNK_SIZE: usize = 40;

/// How long one query may take.
pub const CHUNK_TIMEOUT_SECS: u64 = 30;

/// How many items a query asks for of one list.
pub const MAX_ITEMS_PER_CONNECTION: u64 = 100;

/// The answer to a query about repositories.
#[derive(Debug)]
pub struct GraphQlEnvelope {
    pub data: Option<NameMap<Option<RepoNode>>>,
    pub errors: Option<Vec<GraphQlError>>,
}

/// An error in an answer.
#[derive(Debug)]
pub struct GraphQlError {
    pub error_type: Option<String>,
    pub path: Option<Vec<PathSegment>>,
    pub message: String,
}

/// A step of the path to what an error is about.
#[derive(Debug)]
pub enum PathSegment {
    Name(String),
    Other,
}

/// A repository in an answer.
#[derive(Debug)]
pub struct RepoNode {
    pub issues: Connection,
    pub pull_requests: Connection,
    pub is_fork: bool,
    pub parent: Option<Parent>,
}

/// What a repository was forked from.
#[derive(Debug)]
pub struct Parent {
    pub name_with_owner: String,
}

/// The first items of a list, and how many the list has.
#[derive(Debug)]
pub struct Connection {
    pub total_count: u64,
    pub nodes: Vec<ItemNode>,
}

/// An issue or pull request in an answer.
#[derive(Debug)]
pub struct ItemNode {
    pub number: u64,
    pub title: String,
    pub created_at: Timestamp,
    pub updated_at: Timestamp,
    pub author: Option<Author>,
    pub is_draft: Option<bool>,
}

/// Who wrote an item.
#[derive(Debug)]
pub struct Author {
    pub login: String,
}

/// A watched repository whose name has an owner and a name.
#[derive(Debug)]
pub struct ValidRepo {
    pub original_index: usize,
    pub repo: String,
    pub owner: String,
    pub name: String,
}

/// What a query says of one repository.
#[derive(Debug)]
pub struct ChunkItem {
    pub original_index: usize,
    pub repo: String,
    pub status: RepoStatus,
    /// Whether it has more items than a query asks for.
    pub needs_fallback: bool,
    /// What it was forked from.
    pub fork_parent: Option<String>,
}

/// What a `ChunkItem` says.
pub struct ChunkView {
    pub original_index: usize,
    pub repo: Seq<char>,
    pub status: StatusView,
    pub needs_fallback: bool,
    pub fork_parent: Option<Seq<char>>,
}

impl View for ChunkItem {
    type V = ChunkView;

    open spec fn view(&self) -> ChunkView {
        ChunkView {
            original_index: self.original_index,
            repo: self.repo@,
            status: self.status@,
            needs_fallback: self.needs_fallback,
            fork_parent: opt_text(self.fork_parent),
        }
    }
}

/// The alias that an error is about: the first step of its path, where that is a name.
pub open spec fn error_alias(error: GraphQlError) -> Option<Seq<char>> {
    match error.path {
        Some(path) => if path@.len() > 0 {
            match path@[0] {
                PathSegment::Name(name) => Some(name@),
                PathSegment::Other => None,
            }
        } else {
            None
        },
        None => None,
    }
}

/// Whether an error says that there is no such repository.
pub open spec fn says_not_found(error: GraphQlError) -> bool {
    match error.error_type {
        Some(t) => t@ == "NOT_FOUND"@,
        None => false,
    }
}

/// The messages of the errors that name no alias.
pub open spec fn pathless_messages(errors: Seq<GraphQlError>) -> Seq<Seq<char>>
    decreases errors.len(),
{
    if errors.len() == 0 {
        Seq::empty()
    } else {
        let head = pathless_messages(errors.drop_last());
        if error_alias(errors.last()) is None {
            head.push(errors.last().message@)
        } else {
            head
        }
    }
}

/// Whether some error says of `alias` that there is no such repository.
pub open spec fn absent(errors: Seq<GraphQlError>, alias: Seq<char>) -> bool
    decreases errors.len(),
{
    errors.len() > 0 && (absent(errors.drop_last(), alias) || (error_alias(errors.last()) == Some(
        alias,
    ) && says_not_found(errors.last())))
}

/// The message of the first error about `alias`; with `apart`, of the first that says something
/// else than that there is no such repository.
pub open spec fn first_message(errors: Seq<GraphQlError>, alias: Seq<char>, apart: bool) -> Option<
    Seq<char>,
>
    decreases errors.len(),
{
    if errors.len() == 0 {
        None
    } else {
        let head = first_message(errors.drop_last(), alias, apart);
        if head is None && error_alias(errors.last()) == Some(alias) && !(apart && says_not_found(
            errors.last(),
        )) {
            Some(errors.last().message@)
        } else {
            head
        }
    }
}

/// The errors of an answer by what they are about.
struct ErrorIndex {
    not_found: NameMap<()>,
    errored: NameMap<String>,
    pathless: Vec<String>,
}

impl ErrorIndex {
    /// Whether the index speaks of `errors`.
    spec fn of(&self, errors: Seq<GraphQlError>, apart: bool) -> bool {
        &&& texts(self.pathless@) == pathless_messages(errors)
        &&& forall|alias: Seq<char>|
            apart ==> #[trigger] self.not_found@.contains_key(alias) == absent(errors, alias)
        &&& forall|alias: Seq<char>|
            match first_message(errors, alias, apart) {
                Some(message) => #[trigger] self.errored@.contains_key(alias)
                    && self.errored@[alias]@ == message,
                None => !self.errored@.contains_key(alias),
            }
    }
}

fn alias_of(error: &GraphQlError) -> (res: Option<&String>)
    ensures
        match res {
            Some(alias) => error_alias(*error) == Some(alias@),
            None => error_alias(*error) is None,
        },
{
    match &error.path {
        Some(path) => if path.len() > 0 {
            match &path[0] {
                PathSegment::Name(name) => Some(name),
                PathSegment::Other => None,
            }
        } else {
            None
        },
        None => None,
    }
}

fn is_not_found(error: &GraphQlError) -> (res: bool)
    ensures
        res == says_not_found(*error),
{
    match &error.error_type {
        Some(t) => same(t.as_str(), "NOT_FOUND"),
        None => false,
    }
}

fn index_errors(errors: &Vec<GraphQlError>, apart: bool) -> (res: ErrorIndex)
    ensures
        res.of(errors@, apart),
{
    let mut index = ErrorIndex {
        not_found: NameMap::new(),
        errored: NameMap::new(),
        pathless: Vec::new(),
    };
    let mut i: usize = 0;
    assert(errors@.take(0) =~= Seq::empty());
    assert(texts(index.pathless@) =~= Seq::empty());
    while i < errors.len()
        invariant
            i <= errors@.len(),
            index.of(errors@.take(i as int), apart),
        decreases errors@.len() - i,
    {
        let ghost had = index;
        let ghost upto = errors@.take(i as int);
        let ghost next = errors@.take(i + 1);
        assert(next.drop_last() == upto);
        assert(next.last() == errors@[i as int]);
        let error = &errors[i];
        match alias_of(error) {
            None => {
                index.pathless.push(error.message.clone());
                assert(texts(index.pathless@) =~= texts(had.pathless@).push(error.message@));
            },
            Some(alias) => {
                if apart && is_not_found(error) {
                    index.not_found.insert(alias.clone(), ());
                } else if !index.errored.contains(alias.as_str()) {
                    index.errored.insert(alias.clone(), error.message.clone());
                }
            },
        }
        assert forall|alias: Seq<char>|
            match first_message(next, alias, apart) {
                Some(message) => #[trigger] index.errored@.contains_key(alias)
                    && index.errored@[alias]@ == message,
                None => !index.errored@.contains_key(alias),
            } by {
            assert(had.errored@.contains_key(alias) == first_message(upto, alias, apart) is Some);
        }
        assert forall|alias: Seq<char>| apart implies #[trigger] index.not_found@.contains_key(
            alias,
        ) == absent(next, alias) by {
            assert(had.not_found@.contains_key(alias) == absent(upto, alias));
        }
        assert(texts(index.pathless@) == pathless_messages(next));
        assert(index.of(next, apart));
        i = i + 1;
    }
    assert(errors@.take(i as int) == errors@);
    index
}

/// The login of an item's author.
pub open spec fn login_of_author(author: Option<Author>) -> Seq<char> {
    match author {
        Some(author) => author.login@,
        None => ghost_login(),
    }
}

/// The login of an item's author; a deleted account goes by "ghost".
pub fn author_login(author: &Option<Author>) -> (res: String)
    ensures
        res@ == login_of_author(*author),
{
    match author {
        Some(author) => author.login.clone(),
        None => "ghost".to_owned(),
    }
}

/// The item that a node of a list of `kind` makes.
pub open spec fn node_view(node: ItemNode, kind: ItemKind) -> ItemView {
    ItemView {
        kind,
        number: node.number,
        title: node.title@,
        created_at: node.created_at,
        updated_at: node.updated_at,
        author: login_of_author(node.author),
        pr_draft: match kind {
            ItemKind::PullRequest => node.is_draft,
            ItemKind::Issue => None,
        },
        comments: None,
        review_decision: None,
        mine: false,
    }
}

/// The items that the nodes of a list of `kind` make.
pub open spec fn node_views(nodes: Seq<ItemNode>, kind: ItemKind) -> Seq<ItemView> {
    nodes.map_values(|node: ItemNode| node_view(node, kind))
}

/// The items of a repository: its issues, behind them its pull requests.
pub open spec fn node_items(node: RepoNode) -> Seq<ItemView> {
    node_views(node.issues.nodes@, ItemKind::Issue) + node_views(
        node.pull_requests.nodes@,
        ItemKind::PullRequest,
    )
}

fn item_from_node(node: &ItemNode, kind: ItemKind) -> (res: RepoItem)
    ensures
        res@ == node_view(*node, kind),
{
    RepoItem {
        kind,
        number: node.number,
        title: node.title.clone(),
        created_at: node.created_at,
        updated_at: node.updated_at,
        author: author_login(&node.author),
        pr_draft: match kind {
            ItemKind::PullRequest => node.is_draft,
            ItemKind::Issue => None,
        },
        comments: None,
        review_decision: None,
        mine: false,
    }
}

fn push_nodes(items: &mut Vec<RepoItem>, nodes: &Vec<ItemNode>, kind: ItemKind)
    ensures
        views(final(items)@) == views(old(items)@) + node_views(nodes@, kind),
{
    let ghost had = views(items@);
    let mut i: usize = 0;
    assert(had + node_views(nodes@, kind).take(0) =~= had);
    while i < nodes.len()
        invariant
            i <= nodes@.len(),
            views(items@) == had + node_views(nodes@, kind).take(i as int),
        decreases nodes@.len() - i,
    {
        let ghost before = views(items@);
        items.push(item_from_node(&nodes[i], kind));
        assert(views(items@) =~= before.push(node_view(nodes@[i as int], kind)));
        assert(node_views(nodes@, kind).take(i + 1) =~= node_views(nodes@, kind).take(
            i as int,
        ).push(node_view(nodes@[i as int], kind)));
        i = i + 1;
    }
    assert(node_views(nodes@, kind).take(i as int) =~= node_views(nodes@, kind));
}

/// The items of a repository: its issues, behind them its pull requests.
pub fn items_from_node(node: &RepoNode) -> (res: Vec<RepoItem>)
    ensures
        views(res@) == node_items(*node),
{
    let mut items: Vec<RepoItem> = Vec::new();
    assert(views(items@) =~= Seq::empty());
    push_nodes(&mut items, &node.issues.nodes, ItemKind::Issue);
    assert(views(items@) =~= node_views(node.issues.nodes@, ItemKind::Issue));
    push_nodes(&mut items, &node.pull_requests.nodes, ItemKind::PullRequest);
    items
}

/// What is said of a repository of which only `status` is known.
pub open spec fn bare_item(repo: ValidRepo, status: StatusView) -> ChunkView {
    ChunkView {
        original_index: repo.original_index,
        repo: repo.repo@,
        status,
        needs_fallback: false,
        fork_parent: None,
    }
}

/// The same error for each repository of a chunk.
pub open spec fn all_failed(chunk: Seq<ValidRepo>, error: ErrorView) -> Seq<ChunkView> {
    chunk.map_values(|repo: ValidRepo| bare_item(repo, StatusView::Error(error)))
}

/// What a repository's node says.
pub open spec fn node_item(repo: ValidRepo, node: RepoNode, numbers: Option<Set<u64>>) -> ChunkView {
    ChunkView {
        original_index: repo.original_index,
        repo: repo.repo@,
        status: StatusView::Items(listed(retained(node_items(node), numbers))),
        needs_fallback: node.issues.total_count > MAX_ITEMS_PER_CONNECTION
            || node.pull_requests.total_count > MAX_ITEMS_PER_CONNECTION,
        fork_parent: match node.parent {
            Some(parent) => if node.is_fork {
                Some(parent.name_with_owner@)
            } else {
                None
            },
            None => None,
        },
    }
}

/// The alias of the repository at position `i` of a chunk.
pub open spec fn repo_alias(i: nat) -> Seq<char> {
    seq!['r'] + decimal(i)
}

/// What an answer says of the repository that goes by `alias`: that there is none, the first other
/// error, or its items. What the answer says nothing of is absent too.
pub open spec fn item_under(
    repo: ValidRepo,
    alias: Seq<char>,
    data: Map<Seq<char>, Option<RepoNode>>,
    errors: Seq<GraphQlError>,
    numbers: Option<Set<u64>>,
) -> ChunkView {
    if absent(errors, alias) {
        bare_item(repo, StatusView::NotFound)
    } else if first_message(errors, alias, true) is Some {
        bare_item(
            repo,
            StatusView::Error(ErrorView::Api(first_message(errors, alias, true)->0)),
        )
    } else if data.contains_key(alias) && data[alias] is Some {
        node_item(repo, data[alias]->0, numbers)
    } else {
        bare_item(repo, StatusView::NotFound)
    }
}

/// The errors of an answer.
pub open spec fn errors_in(errors: Option<Vec<GraphQlError>>) -> Seq<GraphQlError> {
    match errors {
        Some(errors) => errors@,
        None => Seq::empty(),
    }
}

/// The data of an answer.
pub open spec fn data_in<T>(data: Option<NameMap<T>>) -> Map<Seq<char>, T> {
    match data {
        Some(data) => data@,
        None => Map::empty(),
    }
}

/// The error that concerns all that was asked: that the answer is empty, or the errors that name
/// no alias.
pub open spec fn common_error<T>(
    data: Option<NameMap<T>>,
    errors: Option<Vec<GraphQlError>>,
) -> Option<ErrorView> {
    if data is None && errors_in(errors).len() == 0 {
        Some(ErrorView::Api("empty GraphQL response"@))
    } else if pathless_messages(errors_in(errors)).len() > 0 {
        Some(ErrorView::Api(join(pathless_messages(errors_in(errors)), "; "@)))
    } else {
        None
    }
}

/// What an answer says of each repository of a chunk.
pub open spec fn parsed(
    chunk: Seq<ValidRepo>,
    envelope: GraphQlEnvelope,
    subscribed: Option<&SubscribedItems>,
) -> Seq<ChunkView> {
    match common_error(envelope.data, envelope.errors) {
        Some(error) => all_failed(chunk, error),
        None => Seq::new(
            chunk.len(),
            |i: int|
                item_under(
                    chunk[i],
                    repo_alias(i as nat),
                    data_in(envelope.data),
                    errors_in(envelope.errors),
                    wanted_numbers(subscribed, chunk[i].repo@),
                ),
        ),
    }
}

fn with_status(repo: &ValidRepo, status: RepoStatus) -> (res: ChunkItem)
    ensures
        res@ == bare_item(*repo, status@),
{
    ChunkItem {
        original_index: repo.original_index,
        repo: repo.repo.clone(),
        status,
        needs_fallback: false,
        fork_parent: None,
    }
}

/// The same error for each repository of a chunk.
pub fn error_for_all(chunk: &[ValidRepo], error: RepoError) -> (res: Vec<ChunkItem>)
    ensures
        views(res@) == all_failed(chunk@, error@),
{
    let mut res: Vec<ChunkItem> = Vec::new();
    let mut i: usize = 0;
    while i < chunk.len()
        invariant
            i <= chunk@.len(),
            res@.len() == i,
            forall|k: int|
                0 <= k < i ==> (#[trigger] res@[k])@ == bare_item(
                    chunk@[k],
                    StatusView::Error(error@),
                ),
        decreases chunk@.len() - i,
    {
        res.push(with_status(&chunk[i], RepoStatus::Error(error.clone())));
        i = i + 1;
    }
    assert(views(res@) =~= all_failed(chunk@, error@));
    res
}

fn with_node(repo: &ValidRepo, node: &RepoNode, subscribed_numbers: Option<&HashSet<u64>>) -> (res:
    ChunkItem)
    ensures
        res@ == node_item(*repo, *node, opt_set(subscribed_numbers)),
{
    let needs_fallback = node.issues.total_count > MAX_ITEMS_PER_CONNECTION
        || node.pull_requests.total_count > MAX_ITEMS_PER_CONNECTION;
    let mut items = items_from_node(node);
    retain_subscribed(&mut items, subscribed_numbers);
    let items = sort_items(items);
    let fork_parent = match &node.parent {
        Some(parent) => if node.is_fork {
            Some(parent.name_with_owner.clone())
        } else {
            None
        },
        None => None,
    };
    ChunkItem {
        original_index: repo.original_index,
        repo: repo.repo.clone(),
        status: RepoStatus::Items(items),
        needs_fallback,
        fork_parent,
    }
}

fn alias_text(prefix: char, i: usize) -> (res: String)
    ensures
        res@ == seq![prefix] + decimal(i as nat),
{
    let mut alias = String::new();
    alias.push(prefix);
    alias.append(decimal_of(i as u64).as_str());
    assert(alias@ =~= seq![prefix] + decimal(i as nat));
    alias
}

/// What an answer says of each repository of a chunk.
pub fn parse_envelope(
    chunk: &[ValidRepo],
    envelope: GraphQlEnvelope,
    subscribed: Option<&SubscribedItems>,
) -> (res: Vec<ChunkItem>)
    ensures
        views(res@) == parsed(chunk@, envelope, subscribed),
        views(res@).len() == chunk@.len(),
        forall|i: int|
            0 <= i < chunk@.len() ==> says_of_repo(
                #[trigger] views(res@)[i],
                chunk@[i],
                i as nat,
                envelope,
                subscribed,
            ),
{
    proof {
        assert forall|i: int| 0 <= i < chunk@.len() implies says_of_repo(
            #[trigger] parsed(chunk@, envelope, subscribed)[i],
            chunk@[i],
            i as nat,
            envelope,
            subscribed,
        ) by {
            answers_are_read_by_alias(chunk@, envelope, subscribed, i);
        }
    }
    let errors = match envelope.errors {
        Some(errors) => errors,
        None => Vec::new(),
    };
    assert(errors@ == errors_in(envelope.errors));
    if envelope.data.is_none() && errors.len() == 0 {
        return error_for_all(chunk, RepoError::Api("empty GraphQL response".to_owned()));
    }
    let index = index_errors(&errors, true);
    assert(texts(index.pathless@).len() == index.pathless@.len());
    if index.pathless.len() > 0 {
        let res = error_for_all(chunk, RepoError::Api(join_all(&index.pathless, "; ")));
        assert(views(res@) == parsed(chunk@, envelope, subscribed));
        return res;
    }
    let data = match envelope.data {
        Some(data) => data,
        None => NameMap::new(),
    };
    assert(data@ == data_in(envelope.data));
    let none: HashSet<u64> = HashSet::new();
    let mut res: Vec<ChunkItem> = Vec::new();
    let mut i: usize = 0;
    while i < chunk.len()
        invariant
            i <= chunk@.len(),
            res@.len() == i,
            none@ == Set::<u64>::empty(),
            index.of(errors@, true),
            forall|k: int|
                0 <= k < i ==> (#[trigger] res@[k])@ == item_under(
                    chunk@[k],
                    repo_alias(k as nat),
                    data@,
                    errors@,
                    wanted_numbers(subscribed, chunk@[k].repo@),
                ),
        decreases chunk@.len() - i,
    {
        let repo = &chunk[i];
        let alias = alias_text('r', i);
        let item = if index.not_found.contains(alias.as_str()) {
            with_status(repo, RepoStatus::NotFound)
        } else {
            match index.errored.get(alias.as_str()) {
                Some(message) => with_status(
                    repo,
                    RepoStatus::Error(RepoError::Api(message.clone())),
                ),
                None => match data.get(alias.as_str()) {
                    Some(Some(node)) => with_node(
                        repo,
                        node,
                        numbers_of(subscribed, repo.repo.as_str(), &none),
                    ),
                    _ => with_status(repo, RepoStatus::NotFound),
                },
            }
        };
        res.push(item);
        i = i + 1;
    }
    assert(views(res@) =~= parsed(chunk@, envelope, subscribed));
    res
}

/// Where an error names no alias, every repository of the chunk failed; none is taken for absent.
pub proof fn pathless_error_fails_every_repo(
    chunk: Seq<ValidRepo>,
    envelope: GraphQlEnvelope,
    subscribed: Option<&SubscribedItems>,
    k: int,
)
    requires
        0 <= k < errors_in(envelope.errors).len(),
        error_alias(errors_in(envelope.errors)[k]) is None,
    ensures
        forall|i: int|
            0 <= i < chunk.len() ==> (#[trigger] parsed(chunk, envelope, subscribed)[i]).status
                == StatusView::Error(
                ErrorView::Api(join(pathless_messages(errors_in(envelope.errors)), "; "@)),
            ),
{
    pathless_message_is_kept(errors_in(envelope.errors), k);
}

proof fn pathless_message_is_kept(errors: Seq<GraphQlError>, k: int)
    requires
        0 <= k < errors.len(),
        error_alias(errors[k]) is None,
    ensures
        pathless_messages(errors).len() > 0,
    decreases errors.len(),
{
    if k < errors.len() - 1 {
        assert(errors.drop_last()[k] == errors[k]);
        pathless_message_is_kept(errors.drop_last(), k);
    }
}

/// Different positions of a chunk have different aliases.
pub proof fn aliases_differ(i: nat, j: nat)
    requires
        i != j,
    ensures
        repo_alias(i) != repo_alias(j),
        search_alias(i) != search_alias(j),
{
    if decimal(i) == decimal(j) {
        crate::text::decimal_is_injective(i, j);
    }
    assert(repo_alias(i).drop_first() =~= decimal(i));
    assert(repo_alias(j).drop_first() =~= decimal(j));
    assert(search_alias(i).drop_first() =~= decimal(i));
    assert(search_alias(j).drop_first() =~= decimal(j));
}

proof fn others_errors_do_not_matter(
    errors: Seq<GraphQlError>,
    k: int,
    alias: Seq<char>,
    apart: bool,
)
    requires
        0 <= k < errors.len(),
        error_alias(errors[k]) is Some,
        error_alias(errors[k]) != Some(alias),
    ensures
        absent(errors, alias) == absent(errors.remove(k), alias),
        first_message(errors, alias, apart) == first_message(errors.remove(k), alias, apart),
        pathless_messages(errors) == pathless_messages(errors.remove(k)),
    decreases errors.len(),
{
    let r = errors.remove(k);
    if k == errors.len() - 1 {
        assert(r =~= errors.drop_last());
    } else {
        let t = errors.drop_last();
        assert(t[k] == errors[k]);
        others_errors_do_not_matter(t, k, alias, apart);
        assert(r.drop_last() =~= t.remove(k));
        assert(r.last() == errors.last());
    }
}

/// An error that names one repository leaves what is said of the others as it is: they read the
/// same in an answer without that error, as long as something is left of the answer.
pub proof fn errors_stay_with_their_repo(
    chunk: Seq<ValidRepo>,
    with: GraphQlEnvelope,
    without: GraphQlEnvelope,
    subscribed: Option<&SubscribedItems>,
    k: int,
    i: int,
    j: int,
)
    requires
        0 <= k < errors_in(with.errors).len(),
        0 <= i < chunk.len(),
        0 <= j < chunk.len(),
        i != j,
        error_alias(errors_in(with.errors)[k]) == Some(repo_alias(i as nat)),
        without.data == with.data,
        errors_in(without.errors) == errors_in(with.errors).remove(k),
        with.data is Some || errors_in(with.errors).len() > 1,
    ensures
        parsed(chunk, with, subscribed)[j] == parsed(chunk, without, subscribed)[j],
{
    aliases_differ(i as nat, j as nat);
    others_errors_do_not_matter(errors_in(with.errors), k, repo_alias(j as nat), true);
}

/// The upstream that the digest shows of a repository: a manual entry goes before what GitHub
/// tells, and an empty one says that there is none.
pub open spec fn effective_parent(
    override_value: Option<Seq<char>>,
    detected: Option<Seq<char>>,
) -> Option<Seq<char>> {
    match override_value {
        Some(value) => if value.len() == 0 {
            None
        } else {
            Some(value)
        },
        None => detected,
    }
}

/// The upstream that the digest shows of a repository.
pub fn effective_fork_parent(override_value: Option<&String>, detected: Option<String>) -> (res:
    Option<String>)
    ensures
        opt_text(res) == effective_parent(
            match override_value {
                Some(value) => Some(value@),
                None => None,
            },
            opt_text(detected),
        ),
{
    match override_value {
        Some(value) => if value.as_str().is_empty() {
            None
        } else {
            Some(value.clone())
        },
        None => detected,
    }
}

/// How Rust prints a text for debugging: in quotes, with escapes.
pub uninterp spec fn quoted(text: Seq<char>) -> Seq<char>;

/// A text as the `Debug` of `str` prints it: in quotes, with escapes. Which characters are escaped
/// goes by tables of the standard library; the result has the name `quoted`.
#[verifier::external_body]
fn quote(text: &str) -> (res: String)
    ensures
        res@ == quoted(text@),
{
    format!("{text:?}")
}

/// The part of a query that asks about one repository; `owner` and `name` are quoted.
pub open spec fn repo_part(i: nat, owner: Seq<char>, name: Seq<char>) -> Seq<char> {
    "\n  r"@ + decimal(i) + ": repository(owner: "@ + owner + ", name: "@ + name
        + ") {\n    isFork\n    parent { nameWithOwner }\n    issues(states: OPEN, first: "@
        + decimal(MAX_ITEMS_PER_CONNECTION as nat)
        + ") { totalCount nodes { number title createdAt updatedAt author { login } } }\n    pullRequests(states: OPEN, first: "@
        + decimal(MAX_ITEMS_PER_CONNECTION as nat)
        + ") { totalCount nodes { number title createdAt updatedAt author { login } isDraft } }\n  }"@
}

/// The part of a query that asks about the repository at position `i`; `owner` and `name` are
/// quoted.
pub fn repo_query(i: usize, owner: &str, name: &str) -> (res: String)
    ensures
        res@ == repo_part(i as nat, owner@, name@),
{
    let limit = decimal_of(MAX_ITEMS_PER_CONNECTION);
    let mut query = "\n  r".to_owned();
    query.append(decimal_of(i as u64).as_str());
    query.append(": repository(owner: ");
    query.append(owner);
    query.append(", name: ");
    query.append(name);
    query.append(
        ") {\n    isFork\n    parent { nameWithOwner }\n    issues(states: OPEN, first: ",
    );
    query.append(limit.as_str());
    query.append(
        ") { totalCount nodes { number title createdAt updatedAt author { login } } }\n    pullRequests(states: OPEN, first: ",
    );
    query.append(limit.as_str());
    query.append(
        ") { totalCount nodes { number title createdAt updatedAt author { login } isDraft } }\n  }",
    );
    query
}

/// A query made of parts.
pub open spec fn query_of(parts: Seq<Seq<char>>) -> Seq<char> {
    "query {"@ + parts.fold_left(Seq::empty(), |text: Seq<char>, part: Seq<char>| text + part)
        + "\n}"@
}

/// The parts of a query about the repositories of a chunk.
pub open spec fn repo_parts_of(chunk: Seq<ValidRepo>) -> Seq<Seq<char>> {
    Seq::new(
        chunk.len(),
        |i: int| repo_part(i as nat, quoted(chunk[i].owner@), quoted(chunk[i].name@)),
    )
}

fn query_text(parts: &Vec<String>) -> (res: String)
    ensures
        res@ == query_of(texts(parts@)),
{
    let mut text = String::new();
    let mut i: usize = 0;
    let ghost add = |text: Seq<char>, part: Seq<char>| text + part;
    assert(texts(parts@).take(0) =~= Seq::empty());
    while i < parts.len()
        invariant
            i <= parts@.len(),
            add == (|text: Seq<char>, part: Seq<char>| text + part),
            text@ == texts(parts@).take(i as int).fold_left(Seq::empty(), add),
        decreases parts@.len() - i,
    {
        let ghost next = texts(parts@).take(i + 1);
        assert(next.drop_last() =~= texts(parts@).take(i as int));
        assert(next.last() == parts@[i as int]@);
        text.append(parts[i].as_str());
        assert(text@ == next.fold_left(Seq::empty(), add)) by {
            reveal(Seq::fold_left);
        }
        i = i + 1;
    }
    assert(texts(parts@).take(i as int) =~= texts(parts@));
    let mut query = "query {".to_owned();
    query.append(text.as_str());
    query.append("\n}");
    query
}

/// A query about the repositories of a chunk, each under its alias.
pub fn build_query(chunk: &[ValidRepo]) -> (res: String)
    ensures
        res@ == query_of(repo_parts_of(chunk@)),
{
    let mut parts: Vec<String> = Vec::new();
    let mut i: usize = 0;
    while i < chunk.len()
        invariant
            i <= chunk@.len(),
            parts@.len() == i,
            forall|k: int| 0 <= k < i ==> (#[trigger] parts@[k])@ == repo_parts_of(chunk@)[k],
        decreases chunk@.len() - i,
    {
        let owner = quote(chunk[i].owner.as_str());
        let name = quote(chunk[i].name.as_str());
        parts.push(repo_query(i, owner.as_str(), name.as_str()));
        i = i + 1;
    }
    assert(texts(parts@) =~= repo_parts_of(chunk@));
    query_text(&parts)
}

/// The alias of the fork at position `i` of a chunk.
pub open spec fn search_alias(i: nat) -> Seq<char> {
    seq!['s'] + decimal(i)
}

/// A fork whose items at its upstream are to be searched.
#[derive(Debug)]
pub struct ForkTarget {
    pub original_index: usize,
    pub repo: String,
    pub parent: String,
    pub fork_owner: String,
}

/// The answer to a query that searches items.
#[derive(Debug)]
pub struct SearchEnvelope {
    pub data: Option<NameMap<Option<SearchConnection>>>,
    pub errors: Option<Vec<GraphQlError>>,
}

/// What a search found.
#[derive(Debug)]
pub struct SearchConnection {
    pub nodes: Vec<SearchNode>,
}

/// An issue or pull request that a search found. Other things have no number.
#[derive(Debug)]
pub struct SearchNode {
    pub typename: String,
    pub number: Option<u64>,
    pub title: Option<String>,
    pub created_at: Option<Timestamp>,
    pub updated_at: Option<Timestamp>,
    pub author: Option<Author>,
    pub comments: Option<CommentsCount>,
    pub is_draft: Option<bool>,
    pub review_decision: Option<String>,
}

/// How many comments an item has.
#[derive(Debug)]
pub struct CommentsCount {
    pub total_count: u64,
}

/// How a review stands, in words.
pub open spec fn review_words(raw: Option<Seq<char>>) -> Option<Seq<char>> {
    match raw {
        Some(raw) => if raw == "APPROVED"@ {
            Some("approved"@)
        } else if raw == "CHANGES_REQUESTED"@ {
            Some("changes requested"@)
        } else if raw == "REVIEW_REQUIRED"@ {
            Some("review pending"@)
        } else {
            None
        },
        None => None,
    }
}

/// How a review stands, in words; none for what has no such words.
pub fn map_review_decision(raw: Option<&str>) -> (res: Option<String>)
    ensures
        opt_text(res) == review_words(crate::text::opt_str(raw)),
{
    match raw {
        Some(raw) => if same(raw, "APPROVED") {
            Some("approved".to_owned())
        } else if same(raw, "CHANGES_REQUESTED") {
            Some("changes requested".to_owned())
        } else if same(raw, "REVIEW_REQUIRED") {
            Some("review pending".to_owned())
        } else {
            None
        },
        None => None,
    }
}

/// The kind of item that a node is.
pub open spec fn search_kind(node: SearchNode) -> ItemKind {
    if node.typename@ == "PullRequest"@ {
        ItemKind::PullRequest
    } else {
        ItemKind::Issue
    }
}

/// The item that a node with `number` makes. `now` stands in where it was created at no known
/// time.
pub open spec fn search_view(node: SearchNode, number: u64, now: Timestamp) -> ItemView {
    let created_at = match node.created_at {
        Some(at) => at,
        None => now,
    };
    let pull = search_kind(node) == ItemKind::PullRequest;
    ItemView {
        kind: search_kind(node),
        number,
        title: match node.title {
            Some(title) => title@,
            None => Seq::empty(),
        },
        created_at,
        updated_at: match node.updated_at {
            Some(at) => at,
            None => created_at,
        },
        author: login_of_author(node.author),
        pr_draft: if pull {
            node.is_draft
        } else {
            None
        },
        comments: match node.comments {
            Some(comments) => Some(comments.total_count),
            None => None,
        },
        review_decision: if pull {
            review_words(opt_text(node.review_decision))
        } else {
            None
        },
        mine: false,
    }
}

/// The items that the nodes with a number make; `clock` holds the instant at which each node was
/// looked at.
pub open spec fn search_views(nodes: Seq<SearchNode>, clock: Seq<Timestamp>) -> Seq<ItemView>
    decreases nodes.len(),
{
    if nodes.len() == 0 {
        Seq::empty()
    } else {
        let head = search_views(nodes.drop_last(), clock);
        match nodes.last().number {
            Some(number) => head.push(search_view(nodes.last(), number, clock[nodes.len() - 1])),
            None => head,
        }
    }
}

/// The items that a search found, in the order of the listing.
pub open spec fn search_listing(nodes: Seq<SearchNode>, clock: Seq<Timestamp>) -> Seq<ItemView> {
    listed(search_views(nodes, clock))
}

/// Where every node was created at a known time, the listing does not depend on when it was made.
pub proof fn search_ignores_the_clock(
    nodes: Seq<SearchNode>,
    one: Seq<Timestamp>,
    other: Seq<Timestamp>,
)
    requires
        forall|i: int| 0 <= i < nodes.len() ==> (#[trigger] nodes[i]).created_at is Some,
    ensures
        search_listing(nodes, one) == search_listing(nodes, other),
{
    search_views_ignore_the_clock(nodes, one, other);
}

proof fn search_views_ignore_the_clock(
    nodes: Seq<SearchNode>,
    one: Seq<Timestamp>,
    other: Seq<Timestamp>,
)
    requires
        forall|i: int| 0 <= i < nodes.len() ==> (#[trigger] nodes[i]).created_at is Some,
    ensures
        search_views(nodes, one) == search_views(nodes, other),
    decreases nodes.len(),
{
    if nodes.len() > 0 {
        let t = nodes.drop_last();
        assert forall|i: int| 0 <= i < t.len() implies (#[trigger] t[i]).created_at is Some by {
            assert(t[i] == nodes[i]);
        }
        search_views_ignore_the_clock(t, one, other);
        assert(nodes.last() == nodes[nodes.len() - 1]);
    }
}

/// What comes later on the clock does not matter to nodes already looked at.
proof fn search_views_extend(nodes: Seq<SearchNode>, clock: Seq<Timestamp>, now: Timestamp)
    requires
        nodes.len() <= clock.len(),
    ensures
        search_views(nodes, clock) == search_views(nodes, clock.push(now)),
    decreases nodes.len(),
{
    if nodes.len() > 0 {
        search_views_extend(nodes.drop_last(), clock, now);
    }
}

/// The item that a node with `number` makes. `now` stands in where it was created at no known
/// time.
pub fn item_from_search_node(node: &SearchNode, number: u64, now: Timestamp) -> (res: RepoItem)
    ensures
        res@ == search_view(*node, number, now),
{
    let pull = same(node.typename.as_str(), "PullRequest");
    let kind = if pull {
        ItemKind::PullRequest
    } else {
        ItemKind::Issue
    };
    let created_at = match node.created_at {
        Some(at) => at,
        None => now,
    };
    let updated_at = match node.updated_at {
        Some(at) => at,
        None => created_at,
    };
    let title = match &node.title {
        Some(title) => title.clone(),
        None => String::new(),
    };
    let comments = match &node.comments {
        Some(comments) => Some(comments.total_count),
        None => None,
    };
    let (pr_draft, review_decision) = if pull {
        let raw = match &node.review_decision {
            Some(raw) => Some(raw.as_str()),
            None => None,
        };
        (node.is_draft, map_review_decision(raw))
    } else {
        (None, None)
    };
    RepoItem {
        kind,
        number,
        title,
        created_at,
        updated_at,
        author: author_login(&node.author),
        pr_draft,
        comments,
        review_decision,
        mine: false,
    }
}

/// The items that a search found, in the order of the listing.
pub fn items_from_search_nodes(nodes: &[SearchNode]) -> (res: Vec<RepoItem>)
    ensures
        exists|clock: Seq<Timestamp>|
            clock.len() == nodes@.len() && views(res@) == #[trigger] search_listing(nodes@, clock),
        tell_of_search(views(res@), nodes@),
{
    let mut items: Vec<RepoItem> = Vec::new();
    let ghost mut clock: Seq<Timestamp> = Seq::empty();
    let mut i: usize = 0;
    assert(nodes@.take(0) =~= Seq::empty());
    assert(views(items@) =~= Seq::empty());
    while i < nodes.len()
        invariant
            i <= nodes@.len(),
            clock.len() == i,
            views(items@) == search_views(nodes@.take(i as int), clock),
        decreases nodes@.len() - i,
    {
        let ghost had = views(items@);
        let ghost next = nodes@.take(i + 1);
        assert(next.drop_last() =~= nodes@.take(i as int));
        assert(next.last() == nodes@[i as int]);
        if let Some(number) = nodes[i].number {
            // the clock is read only where the answer tells no time
            let now = match nodes[i].created_at {
                Some(at) => at,
                None => utc_now(),
            };
            proof {
                search_views_extend(nodes@.take(i as int), clock, now);
                clock = clock.push(now);
            }
            items.push(item_from_search_node(&nodes[i], number, now));
            assert(views(items@) =~= had.push(search_view(nodes@[i as int], number, now)));
        } else {
            proof {
                let any = arbitrary::<Timestamp>();
                search_views_extend(nodes@.take(i as int), clock, any);
                clock = clock.push(any);
            }
        }
        i = i + 1;
    }
    assert(nodes@.take(i as int) =~= nodes@);
    let items = sort_items(items);
    assert(views(items@) == search_listing(nodes@, clock));
    proof {
        found_items_tell_of_their_nodes(nodes@, clock);
    }
    items
}

/// The results of a chunk of forks, each with its position in the list of forks.
pub open spec fn tagged(results: Seq<(usize, RepoResult)>) -> Seq<(usize, ResultView)> {
    results.map_values(|result: (usize, RepoResult)| (result.0, result.1@))
}

/// The result of a fork of which only `status` is known.
pub open spec fn fork_view(target: ForkTarget, status: StatusView) -> ResultView {
    ResultView { repo: target.repo@, status, upstream: Some(target.parent@) }
}

/// The same error for each fork of a chunk.
pub open spec fn all_searches_failed(
    chunk: Seq<(usize, &ForkTarget)>,
    error: ErrorView,
) -> Seq<(usize, ResultView)> {
    Seq::new(
        chunk.len(),
        |i: int| (chunk[i].0, fork_view(*chunk[i].1, StatusView::Error(error))),
    )
}

/// What an answer says of the fork that goes by `alias`: the first error, or what was found.
pub open spec fn found_under(
    alias: Seq<char>,
    data: Map<Seq<char>, Option<SearchConnection>>,
    errors: Seq<GraphQlError>,
    clock: Seq<Timestamp>,
) -> StatusView {
    match first_message(errors, alias, false) {
        Some(message) => StatusView::Error(ErrorView::Api(message)),
        None => StatusView::Items(
            if data.contains_key(alias) && data[alias] is Some {
                search_listing((data[alias]->0).nodes@, clock)
            } else {
                Seq::empty()
            },
        ),
    }
}

/// What an answer says of each fork of a chunk; `clocks` holds, for each, the instants at which
/// its nodes were looked at.
pub open spec fn search_parsed(
    chunk: Seq<(usize, &ForkTarget)>,
    envelope: SearchEnvelope,
    clocks: Seq<Seq<Timestamp>>,
) -> Seq<(usize, ResultView)> {
    match common_error(envelope.data, envelope.errors) {
        Some(error) => all_searches_failed(chunk, error),
        None => Seq::new(
            chunk.len(),
            |i: int|
                (
                    chunk[i].0,
                    fork_view(
                        *chunk[i].1,
                        found_under(
                            search_alias(i as nat),
                            data_in(envelope.data),
                            errors_in(envelope.errors),
                            clocks[i],
                        ),
                    ),
                ),
        ),
    }
}

fn fork_result(target: &ForkTarget, status: RepoStatus) -> (res: RepoResult)
    ensures
        res@ == fork_view(*target, status@),
{
    RepoResult::new(target.repo.clone(), status).with_upstream(target.parent.clone())
}

/// The same error for each fork of a chunk.
pub fn search_error_for_all(chunk: &[(usize, &ForkTarget)], error: RepoError) -> (res: Vec<
    (usize, RepoResult),
>)
    ensures
        tagged(res@) == all_searches_failed(chunk@, error@),
{
    let mut res: Vec<(usize, RepoResult)> = Vec::new();
    let mut i: usize = 0;
    while i < chunk.len()
        invariant
            i <= chunk@.len(),
            res@.len() == i,
            forall|k: int|
                0 <= k < i ==> ((#[trigger] res@[k]).0, res@[k].1@) == all_searches_failed(
                    chunk@,
                    error@,
                )[k],
        decreases chunk@.len() - i,
    {
        let (local_index, target) = chunk[i];
        res.push((local_index, fork_result(target, RepoStatus::Error(error.clone()))));
        i = i + 1;
    }
    assert(tagged(res@) =~= all_searches_failed(chunk@, error@));
    res
}

/// What is searched for a fork: the open items of its owner at its upstream.
pub open spec fn search_words(target: ForkTarget) -> Seq<char> {
    "repo:"@ + target.parent@ + " author:"@ + target.fork_owner@ + " is:open"@
}

/// The part of a query that searches the items of one fork; `words` are quoted.
pub open spec fn search_part(i: nat, words: Seq<char>) -> Seq<char> {
    "\n  s"@ + decimal(i) + ": search(query: "@ + words + ", type: ISSUE, first: "@ + decimal(
        MAX_ITEMS_PER_CONNECTION as nat,
    )
        + ") { nodes { __typename ... on Issue { number title createdAt updatedAt author { login } comments { totalCount } } ... on PullRequest { number title createdAt updatedAt author { login } comments { totalCount } isDraft reviewDecision } } }"@
}

/// The parts of a query about a chunk of forks.
pub open spec fn search_parts_of(chunk: Seq<(usize, &ForkTarget)>) -> Seq<Seq<char>> {
    Seq::new(chunk.len(), |i: int| search_part(i as nat, quoted(search_words(*chunk[i].1))))
}

/// The part of a query that searches the items of the fork at position `i`; `words` are quoted.
pub fn search_query(i: usize, words: &str) -> (res: String)
    ensures
        res@ == search_part(i as nat, words@),
{
    let mut query = "\n  s".to_owned();
    query.append(decimal_of(i as u64).as_str());
    query.append(": search(query: ");
    query.append(words);
    query.append(", type: ISSUE, first: ");
    query.append(decimal_of(MAX_ITEMS_PER_CONNECTION).as_str());
    query.append(
        ") { nodes { __typename ... on Issue { number title createdAt updatedAt author { login } comments { totalCount } } ... on PullRequest { number title createdAt updatedAt author { login } comments { totalCount } isDraft reviewDecision } } }",
    );
    query
}

/// A query that searches the items of a chunk of forks, each under its alias.
pub fn build_search_query(chunk: &[(usize, &ForkTarget)]) -> (res: String)
    ensures
        res@ == query_of(search_parts_of(chunk@)),
{
    let mut parts: Vec<String> = Vec::new();
    let mut i: usize = 0;
    while i < chunk.len()
        invariant
            i <= chunk@.len(),
            parts@.len() == i,
            forall|k: int| 0 <= k < i ==> (#[trigger] parts@[k])@ == search_parts_of(chunk@)[k],
        decreases chunk@.len() - i,
    {
        let (_, target) = chunk[i];
        let mut words = "repo:".to_owned();
        words.append(target.parent.as_str());
        words.append(" author:");
        words.append(target.fork_owner.as_str());
        words.append(" is:open");
        parts.push(search_query(i, quote(words.as_str()).as_str()));
        i = i + 1;
    }
    assert(texts(parts@) =~= search_parts_of(chunk@));
    query_text(&parts)
}

/// What an answer says of each fork of a chunk.
pub fn parse_search_envelope(chunk: &[(usize, &ForkTarget)], envelope: SearchEnvelope) -> (res: Vec<
    (usize, RepoResult),
>)
    ensures
        exists|clocks: Seq<Seq<Timestamp>>|
            tagged(res@) == #[trigger] search_parsed(chunk@, envelope, clocks),
        tagged(res@).len() == chunk@.len(),
        forall|i: int|
            0 <= i < chunk@.len() ==> (#[trigger] tagged(res@)[i]).0 == chunk@[i].0 && says_of_fork(
                tagged(res@)[i].1,
                *chunk@[i].1,
                i as nat,
                envelope,
            ),
{
    proof {
        assert forall|clocks: Seq<Seq<Timestamp>>, i: int|
            0 <= i < chunk@.len() implies (#[trigger] search_parsed(chunk@, envelope, clocks)[i]).0
            == chunk@[i].0 && says_of_fork(
            search_parsed(chunk@, envelope, clocks)[i].1,
            *chunk@[i].1,
            i as nat,
            envelope,
        ) by {
            searches_are_read_by_alias(chunk@, envelope, clocks, i);
        }
    }
    let ghost mut clocks: Seq<Seq<Timestamp>> = Seq::empty();
    let errors = match envelope.errors {
        Some(errors) => errors,
        None => Vec::new(),
    };
    assert(errors@ == errors_in(envelope.errors));
    if envelope.data.is_none() && errors.len() == 0 {
        let res = search_error_for_all(
            chunk,
            RepoError::Api("empty GraphQL response".to_owned()),
        );
        assert(tagged(res@) == search_parsed(chunk@, envelope, clocks));
        return res;
    }
    let index = index_errors(&errors, false);
    assert(texts(index.pathless@).len() == index.pathless@.len());
    if index.pathless.len() > 0 {
        let res = search_error_for_all(chunk, RepoError::Api(join_all(&index.pathless, "; ")));
        assert(tagged(res@) == search_parsed(chunk@, envelope, clocks));
        return res;
    }
    let data = match envelope.data {
        Some(data) => data,
        None => NameMap::new(),
    };
    assert(data@ == data_in(envelope.data));
    let mut res: Vec<(usize, RepoResult)> = Vec::new();
    let mut i: usize = 0;
    while i < chunk.len()
        invariant
            i <= chunk@.len(),
            res@.len() == i,
            clocks.len() == i,
            index.of(errors@, false),
            forall|k: int|
                0 <= k < i ==> (#[trigger] res@[k]).0 == chunk@[k].0 && res@[k].1@ == fork_view(
                    *chunk@[k].1,
                    found_under(search_alias(k as nat), data@, errors@, clocks[k]),
                ),
        decreases chunk@.len() - i,
    {
        let (local_index, target) = chunk[i];
        let alias = alias_text('s', i);
        let ghost mut clock: Seq<Timestamp> = Seq::empty();
        let status = match index.errored.get(alias.as_str()) {
            Some(message) => RepoStatus::Error(RepoError::Api(message.clone())),
            None => match data.get(alias.as_str()) {
                Some(Some(connection)) => {
                    let items = items_from_search_nodes(connection.nodes.as_slice());
                    proof {
                        clock =
                        choose|clock: Seq<Timestamp>|
                            clock.len() == connection.nodes@.len() && views(items@)
                                == #[trigger] search_listing(connection.nodes@, clock);
                    }
                    RepoStatus::Items(items)
                },
                _ => {
                    let items: Vec<RepoItem> = Vec::new();
                    assert(views(items@) =~= Seq::empty());
                    RepoStatus::Items(items)
                },
            },
        };
        proof {
            clocks = clocks.push(clock);
        }
        res.push((local_index, fork_result(target, status)));
        i = i + 1;
    }
    assert(tagged(res@) =~= search_parsed(chunk@, envelope, clocks));
    res
}

} // verus!
