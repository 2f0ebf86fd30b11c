//! Laws on queries about many repositories and on their answers.
use vstd::prelude::*;

use crate::github::{wanted_numbers, SubscribedItems};
use crate::graphql::{
    absent, data_in, effective_parent, error_alias, errors_in, first_message, node_items, node_view,
    node_views, parsed, pathless_messages, query_of, quoted, repo_alias, repo_parts_of,
    review_words, says_not_found, search_alias, search_listing, search_parsed, search_parts_of,
    search_view, search_views, ChunkView, ForkTarget, GraphQlEnvelope, GraphQlError, ItemNode,
    PathSegment, RepoNode, SearchEnvelope, SearchNode, ValidRepo,
};
use crate::laws::items::{listings_hold_what_is_wanted, stands_in, wanted, well_listed};
use crate::model::{ErrorView, ItemKind, ItemView, ResultView, StatusView, Timestamp};
use crate::name_map::NameMap;
use crate::text::{decimal, join, opt_text};

verus! {

/// Whether an error is about what goes by `alias`: its path begins with that name.
pub open spec fn error_on(error: GraphQlError, alias: Seq<char>) -> bool {
    error.path matches Some(path) && path@.len() > 0 && (path@[0] matches PathSegment::Name(name)
        && name@ == alias)
}

/// Whether an error is about nothing in particular: its path does not begin with a name.
pub open spec fn about_none(error: GraphQlError) -> bool {
    match error.path {
        Some(path) => path@.len() == 0 || path@[0] is Other,
        None => true,
    }
}

/// Whether an error says that there is nothing of the kind.
pub open spec fn denies(error: GraphQlError) -> bool {
    error.error_type matches Some(t) && t@ == "NOT_FOUND"@
}

/// The errors of an answer.
pub open spec fn errors_told(errors: Option<Vec<GraphQlError>>) -> Seq<GraphQlError> {
    match errors {
        Some(errors) => errors@,
        None => Seq::empty(),
    }
}

/// What an answer holds under `alias`.
pub open spec fn held<T>(data: Option<NameMap<Option<T>>>, alias: Seq<char>) -> Option<T> {
    match data {
        Some(data) => if data@.contains_key(alias) {
            data@[alias]
        } else {
            None
        },
        None => None,
    }
}

/// Whether some error is about what goes by `alias`.
pub open spec fn blamed(errors: Seq<GraphQlError>, alias: Seq<char>) -> bool {
    exists|k: int| 0 <= k < errors.len() && error_on(#[trigger] errors[k], alias)
}

/// Whether some error says of what goes by `alias` that there is nothing of the kind.
pub open spec fn denied(errors: Seq<GraphQlError>, alias: Seq<char>) -> bool {
    exists|k: int|
        0 <= k < errors.len() && error_on(#[trigger] errors[k], alias) && denies(errors[k])
}

/// Whether `message` is that of the first error about what goes by `alias`.
pub open spec fn first_told(
    errors: Seq<GraphQlError>,
    alias: Seq<char>,
    message: Seq<char>,
) -> bool {
    exists|k: int|
        0 <= k < errors.len() && error_on(#[trigger] errors[k], alias) && errors[k].message@
            == message && forall|j: int| 0 <= j < k ==> !error_on(#[trigger] errors[j], alias)
}

proof fn aliases_of_errors(error: GraphQlError, alias: Seq<char>)
    ensures
        error_alias(error) == Some(alias) <==> error_on(error, alias),
        error_alias(error) is None <==> about_none(error),
        says_not_found(error) == denies(error),
{
}

proof fn absences_are_denials(errors: Seq<GraphQlError>, alias: Seq<char>)
    ensures
        absent(errors, alias) <==> denied(errors, alias),
    decreases errors.len(),
{
    if errors.len() > 0 {
        let t = errors.drop_last();
        absences_are_denials(t, alias);
        let last = errors[errors.len() - 1];
        aliases_of_errors(last, alias);
        assert forall|k: int| 0 <= k < t.len() implies #[trigger] t[k] == errors[k] by {}
        if denied(t, alias) {
            let k = choose|k: int|
                0 <= k < t.len() && error_on(#[trigger] t[k], alias) && denies(t[k]);
            assert(error_on(errors[k], alias) && denies(errors[k]));
        }
        if denied(errors, alias) {
            let k = choose|k: int|
                0 <= k < errors.len() && error_on(#[trigger] errors[k], alias) && denies(errors[k]);
            if k < t.len() {
                assert(error_on(t[k], alias) && denies(t[k]));
            }
        }
    }
}

proof fn first_messages_are_first(errors: Seq<GraphQlError>, alias: Seq<char>, apart: bool)
    requires
        apart ==> !denied(errors, alias),
    ensures
        first_message(errors, alias, apart) is Some <==> blamed(errors, alias),
        first_message(errors, alias, apart) matches Some(message) ==> first_told(
            errors,
            alias,
            message,
        ),
    decreases errors.len(),
{
    if errors.len() > 0 {
        let t = errors.drop_last();
        let n = errors.len() - 1;
        let last = errors[n];
        assert forall|k: int| 0 <= k < t.len() implies #[trigger] t[k] == errors[k] by {}
        if apart && denied(t, alias) {
            let k = choose|k: int|
                0 <= k < t.len() && error_on(#[trigger] t[k], alias) && denies(t[k]);
            assert(error_on(errors[k], alias) && denies(errors[k]));
        }
        first_messages_are_first(t, alias, apart);
        aliases_of_errors(last, alias);
        if blamed(t, alias) {
            let k = choose|k: int| 0 <= k < t.len() && error_on(#[trigger] t[k], alias);
            assert(error_on(errors[k], alias));
            let message = first_message(t, alias, apart)->0;
            let m = choose|m: int|
                0 <= m < t.len() && error_on(#[trigger] t[m], alias) && t[m].message@ == message
                    && forall|j: int| 0 <= j < m ==> !error_on(#[trigger] t[j], alias);
            assert(errors[m] == t[m]);
            assert forall|j: int| 0 <= j < m implies !error_on(#[trigger] errors[j], alias) by {
                assert(!error_on(t[j], alias));
            }
        } else if error_on(last, alias) {
            assert(apart ==> !denies(errors[n]));
            assert forall|j: int| 0 <= j < n implies !error_on(#[trigger] errors[j], alias) by {
                assert(!error_on(t[j], alias));
            }
            assert(first_told(errors, alias, errors[n].message@));
        } else {
            assert forall|j: int| 0 <= j < errors.len() implies !error_on(
                #[trigger] errors[j],
                alias,
            ) by {
                if j < n {
                    assert(!error_on(t[j], alias));
                }
            }
        }
    }
}

/// The messages of the errors that are about nothing in particular, in their order.
pub open spec fn general_messages(errors: Seq<GraphQlError>) -> Seq<Seq<char>> {
    errors.filter(|e: GraphQlError| about_none(e)).map_values(|e: GraphQlError| e.message@)
}

proof fn pathless_errors_are_general(errors: Seq<GraphQlError>)
    ensures
        pathless_messages(errors) == general_messages(errors),
        pathless_messages(errors).len() > 0 <==> exists|k: int|
            0 <= k < errors.len() && about_none(#[trigger] errors[k]),
    decreases errors.len(),
{
    reveal(Seq::filter);
    if errors.len() > 0 {
        let t = errors.drop_last();
        pathless_errors_are_general(t);
        let last = errors[errors.len() - 1];
        aliases_of_errors(last, Seq::empty());
        assert forall|k: int| 0 <= k < t.len() implies #[trigger] t[k] == errors[k] by {}
        assert(pathless_messages(errors) =~= general_messages(errors));
        if exists|k: int| 0 <= k < t.len() && about_none(#[trigger] t[k]) {
            let k = choose|k: int| 0 <= k < t.len() && about_none(#[trigger] t[k]);
            assert(about_none(errors[k]));
        }
        if exists|k: int| 0 <= k < errors.len() && about_none(#[trigger] errors[k]) {
            let k = choose|k: int| 0 <= k < errors.len() && about_none(#[trigger] errors[k]);
            if k < t.len() {
                assert(about_none(t[k]));
            }
        }
    } else {
        assert(pathless_messages(errors) =~= general_messages(errors));
    }
}

/// Whether an item tells of a node of a list of its kind.
pub open spec fn tells_of_node(item: ItemView, node: ItemNode) -> bool {
    &&& item.number == node.number
    &&& item.title == node.title@
    &&& item.created_at == node.created_at
    &&& item.updated_at == node.updated_at
    &&& match node.author {
        Some(author) => item.author == author.login@,
        None => item.author == "ghost"@,
    }
    &&& item.pr_draft == match item.kind {
        ItemKind::PullRequest => node.is_draft,
        ItemKind::Issue => None,
    }
    &&& item.comments is None
    &&& item.review_decision is None
    &&& !item.mine
}

/// Of a repository's node the issues are read first and then the pull requests, each in its order
/// and as what it was listed as.
pub proof fn nodes_are_read_in_order(node: RepoNode, n: int)
    requires
        0 <= n < node_items(node).len(),
    ensures
        ({
            let issues = node.issues.nodes@;
            let pulls = node.pull_requests.nodes@;
            let item = node_items(node)[n];
            &&& node_items(node).len() == issues.len() + pulls.len()
            &&& n < issues.len() ==> item.kind == ItemKind::Issue && tells_of_node(item, issues[n])
            &&& n >= issues.len() ==> item.kind == ItemKind::PullRequest && tells_of_node(
                item,
                pulls[n - issues.len()],
            )
        }),
{
}

/// The nodes of a repository's list of one kind.
pub open spec fn nodes_of(node: RepoNode, kind: ItemKind) -> Seq<ItemNode> {
    match kind {
        ItemKind::PullRequest => node.pull_requests.nodes@,
        ItemKind::Issue => node.issues.nodes@,
    }
}

/// Whether items tell of a repository's node: each of a wanted node of the list of its kind, and
/// each wanted node of either list has its item. Where all is wanted there are as many.
pub open spec fn tell_of_repo(
    items: Seq<ItemView>,
    node: RepoNode,
    numbers: Option<Set<u64>>,
) -> bool {
    &&& well_listed(items)
    &&& forall|k: int|
        0 <= k < items.len() ==> wanted(numbers, (#[trigger] items[k]).number) && exists|n: int|
            0 <= n < nodes_of(node, items[k].kind).len() && tells_of_node(
                items[k],
                #[trigger] nodes_of(node, items[k].kind)[n],
            )
    &&& forall|kind: ItemKind, n: int|
        0 <= n < nodes_of(node, kind).len() && wanted(
            numbers,
            (#[trigger] nodes_of(node, kind)[n]).number,
        ) ==> exists|k: int|
            0 <= k < items.len() && (#[trigger] items[k]).kind == kind && tells_of_node(
                items[k],
                nodes_of(node, kind)[n],
            )
    &&& numbers is None ==> items.len() == node.issues.nodes@.len()
        + node.pull_requests.nodes@.len()
}

proof fn node_items_tell_of_their_nodes(node: RepoNode, numbers: Option<Set<u64>>)
    ensures
        tell_of_repo(
            crate::model::listed(crate::github::retained(node_items(node), numbers)),
            node,
            numbers,
        ),
{
    let issues = node_views(node.issues.nodes@, ItemKind::Issue);
    let pulls = node_views(node.pull_requests.nodes@, ItemKind::PullRequest);
    let all = node_items(node);
    let out = crate::model::listed(crate::github::retained(all, numbers));
    listings_hold_what_is_wanted(all, numbers);
    assert forall|k: int| 0 <= k < out.len() implies wanted(numbers, (#[trigger] out[k]).number)
        && exists|n: int|
        0 <= n < nodes_of(node, out[k].kind).len() && tells_of_node(
            out[k],
            #[trigger] nodes_of(node, out[k].kind)[n],
        ) by {
        assert(stands_in(out[k], out));
        let m = choose|m: int| 0 <= m < all.len() && #[trigger] all[m] == out[k];
        if m < issues.len() {
            assert(all[m] == issues[m]);
            assert(issues[m] == node_view(node.issues.nodes@[m], ItemKind::Issue));
            assert(tells_of_node(out[k], nodes_of(node, out[k].kind)[m]));
        } else {
            let n = m - issues.len();
            assert(all[m] == pulls[n]);
            assert(pulls[n] == node_view(node.pull_requests.nodes@[n], ItemKind::PullRequest));
            assert(tells_of_node(out[k], nodes_of(node, out[k].kind)[n]));
        }
    }
    assert forall|kind: ItemKind, n: int|
        0 <= n < nodes_of(node, kind).len() && wanted(
            numbers,
            (#[trigger] nodes_of(node, kind)[n]).number,
        ) implies exists|k: int|
        0 <= k < out.len() && (#[trigger] out[k]).kind == kind && tells_of_node(
            out[k],
            nodes_of(node, kind)[n],
        ) by {
        let item = node_view(nodes_of(node, kind)[n], kind);
        if kind == ItemKind::Issue {
            assert(issues[n] == item);
            assert(all[n] == item);
        } else {
            assert(pulls[n] == item);
            assert(all[issues.len() + n] == item);
        }
        assert(stands_in(item, all));
        assert(stands_in(item, out));
        let k = choose|k: int| 0 <= k < out.len() && #[trigger] out[k] == item;
        assert(tells_of_node(out[k], nodes_of(node, kind)[n]));
    }
}

/// Whether `out` is what an answer says of the repository at position `i` of a chunk. An empty
/// answer and an error about nothing in particular fail them all. Else the repository goes by its
/// alias, the letter `r` and its position: it is absent where an error says so, or where there is
/// neither an error about it nor anything under its alias; it failed where there is another error
/// about it, with the message of the first; else its items tell of what stands under its alias.
pub open spec fn says_of_repo(
    out: ChunkView,
    repo: ValidRepo,
    i: nat,
    envelope: GraphQlEnvelope,
    subscribed: Option<&SubscribedItems>,
) -> bool {
    let errors = errors_told(envelope.errors);
    let alias = seq!['r'] + decimal(i);
    let node = held(envelope.data, alias);
    let general = exists|k: int| 0 <= k < errors.len() && about_none(#[trigger] errors[k]);
    let empty = envelope.data is None && errors.len() == 0;
    &&& out.original_index == repo.original_index
    &&& out.repo == repo.repo@
    &&& empty ==> out.status == StatusView::Error(ErrorView::Api("empty GraphQL response"@))
    &&& general ==> out.status == StatusView::Error(
        ErrorView::Api(join(general_messages(errors), "; "@)),
    )
    &&& !empty && !general ==> {
        &&& out.status is NotFound <==> denied(errors, alias) || (!blamed(errors, alias)
            && node is None)
        &&& out.status is Error <==> blamed(errors, alias) && !denied(errors, alias)
        &&& out.status matches StatusView::Error(e) ==> e matches ErrorView::Api(message)
            && first_told(errors, alias, message)
        &&& out.status matches StatusView::Items(items) ==> tell_of_repo(
            items,
            node->0,
            wanted_numbers(subscribed, repo.repo@),
        )
    }
    &&& out.needs_fallback <==> out.status is Items && ((node->0).issues.total_count > 100 || (
    node->0).pull_requests.total_count > 100)
    &&& out.fork_parent is Some ==> out.status is Items
    &&& out.status is Items ==> out.fork_parent == (if (node->0).is_fork {
        match (node->0).parent {
            Some(parent) => Some(parent.name_with_owner@),
            None => None,
        }
    } else {
        None
    })
}

/// An answer is read for each repository of its chunk by the alias that it goes by.
pub proof fn answers_are_read_by_alias(
    chunk: Seq<ValidRepo>,
    envelope: GraphQlEnvelope,
    subscribed: Option<&SubscribedItems>,
    i: int,
)
    requires
        0 <= i < chunk.len(),
    ensures
        parsed(chunk, envelope, subscribed).len() == chunk.len(),
        says_of_repo(
            parsed(chunk, envelope, subscribed)[i],
            chunk[i],
            i as nat,
            envelope,
            subscribed,
        ),
{
    let errors = errors_told(envelope.errors);
    let alias = seq!['r'] + decimal(i as nat);
    assert(errors == errors_in(envelope.errors));
    assert(alias == repo_alias(i as nat));
    pathless_errors_are_general(errors);
    absences_are_denials(errors, alias);
    if !denied(errors, alias) {
        first_messages_are_first(errors, alias, true);
    } else {
        let k = choose|k: int|
            0 <= k < errors.len() && error_on(#[trigger] errors[k], alias) && denies(errors[k]);
        assert(blamed(errors, alias));
    }
    let data = data_in(envelope.data);
    assert((data.contains_key(alias) && data[alias] is Some) == held(envelope.data, alias) is Some);
    if let Some(node) = held(envelope.data, alias) {
        assert(data[alias] == Some(node));
        node_items_tell_of_their_nodes(node, wanted_numbers(subscribed, chunk[i].repo@));
    }
}

/// Whether an item tells of something with a number that a search found.
pub open spec fn tells_of_found(item: ItemView, node: SearchNode) -> bool {
    &&& node.number == Some(item.number)
    &&& item.kind == ItemKind::PullRequest <==> node.typename@ == "PullRequest"@
    &&& match node.title {
        Some(title) => item.title == title@,
        None => item.title.len() == 0,
    }
    &&& match node.author {
        Some(author) => item.author == author.login@,
        None => item.author == "ghost"@,
    }
    &&& node.created_at matches Some(at) ==> item.created_at == at
    &&& match node.updated_at {
        Some(at) => item.updated_at == at,
        None => item.updated_at == item.created_at,
    }
    &&& match node.comments {
        Some(comments) => item.comments == Some(comments.total_count),
        None => item.comments is None,
    }
    &&& item.pr_draft == (if item.kind == ItemKind::PullRequest {
        node.is_draft
    } else {
        None
    })
    &&& item.review_decision == (if item.kind == ItemKind::PullRequest {
        review_words(opt_text(node.review_decision))
    } else {
        None
    })
    &&& !item.mine
}

/// The item of something that a search found tells of it, and the present moment stands in just where
/// its beginning is not told.
pub proof fn the_present_stands_in_for_a_missing_start(
    node: SearchNode,
    number: u64,
    now: Timestamp,
)
    requires
        node.number == Some(number),
    ensures
        tells_of_found(search_view(node, number, now), node),
        node.created_at is None ==> search_view(node, number, now).created_at == now,
{
}

/// The item of a node tells of it, as what it was listed as.
pub proof fn nodes_are_told_as_listed(node: ItemNode, kind: ItemKind)
    ensures
        node_view(node, kind).kind == kind,
        tells_of_node(node_view(node, kind), node),
{
}

/// Whether an item tells of something among `nodes`.
pub open spec fn stems_from(item: ItemView, nodes: Seq<SearchNode>) -> bool {
    exists|n: int| 0 <= n < nodes.len() && tells_of_found(item, #[trigger] nodes[n])
}

/// Whether one of `items` tells of what was found.
pub open spec fn told_by(node: SearchNode, items: Seq<ItemView>) -> bool {
    exists|k: int| 0 <= k < items.len() && tells_of_found(#[trigger] items[k], node)
}

/// Whether items tell of what a search found: each of a node with a number, and each such node has
/// its item; there are as many.
pub open spec fn tell_of_search(items: Seq<ItemView>, nodes: Seq<SearchNode>) -> bool {
    &&& well_listed(items)
    &&& forall|k: int| 0 <= k < items.len() ==> #[trigger] stems_from(items[k], nodes)
    &&& forall|n: int|
        0 <= n < nodes.len() && nodes[n].number is Some ==> #[trigger] told_by(nodes[n], items)
    &&& items.len() == nodes.filter(|node: SearchNode| node.number is Some).len()
}

proof fn search_views_tell(nodes: Seq<SearchNode>, clock: Seq<Timestamp>)
    ensures
        forall|k: int|
            0 <= k < search_views(nodes, clock).len() ==> #[trigger] stems_from(
                search_views(nodes, clock)[k],
                nodes,
            ),
        forall|n: int|
            0 <= n < nodes.len() && nodes[n].number is Some ==> #[trigger] told_by(
                nodes[n],
                search_views(nodes, clock),
            ),
        search_views(nodes, clock).len() == nodes.filter(
            |node: SearchNode| node.number is Some,
        ).len(),
    decreases nodes.len(),
{
    reveal(Seq::filter);
    if nodes.len() > 0 {
        let t = nodes.drop_last();
        search_views_tell(t, clock);
        let head = search_views(t, clock);
        let all = search_views(nodes, clock);
        let last = nodes[nodes.len() - 1];
        if let Some(number) = last.number {
            assert(all[head.len() as int] == search_view(last, number, clock[nodes.len() - 1]));
            assert(tells_of_found(all[head.len() as int], last));
        }
        assert forall|k: int| 0 <= k < all.len() implies #[trigger] stems_from(all[k], nodes) by {
            if k < head.len() {
                assert(all[k] == head[k]);
                assert(stems_from(head[k], t));
                let n = choose|n: int|
                    0 <= n < t.len() && tells_of_found(head[k], #[trigger] t[n]);
                assert(t[n] == nodes[n]);
            }
        }
        assert forall|n: int| 0 <= n < nodes.len() && nodes[n].number is Some implies #[trigger] told_by(
            nodes[n],
            all,
        ) by {
            if n < t.len() {
                assert(t[n] == nodes[n]);
                assert(told_by(t[n], head));
                let k = choose|k: int|
                    0 <= k < head.len() && tells_of_found(#[trigger] head[k], t[n]);
                assert(all[k] == head[k]);
            }
        }
    }
}

/// What a search found is told: each item of something with a number, in the order of a listing.
pub proof fn found_items_tell_of_their_nodes(nodes: Seq<SearchNode>, clock: Seq<Timestamp>)
    ensures
        tell_of_search(search_listing(nodes, clock), nodes),
{
    let all = search_views(nodes, clock);
    let out = search_listing(nodes, clock);
    search_views_tell(nodes, clock);
    listings_hold_what_is_wanted(all, None);
    assert(crate::github::retained(all, None) == all);
    assert forall|k: int| 0 <= k < out.len() implies #[trigger] stems_from(out[k], nodes) by {
        assert(stands_in(out[k], out));
        let m = choose|m: int| 0 <= m < all.len() && #[trigger] all[m] == out[k];
        assert(stems_from(all[m], nodes));
    }
    assert forall|n: int| 0 <= n < nodes.len() && nodes[n].number is Some implies #[trigger] told_by(
        nodes[n],
        out,
    ) by {
        assert(told_by(nodes[n], all));
        let m = choose|m: int| 0 <= m < all.len() && tells_of_found(#[trigger] all[m], nodes[n]);
        assert(stands_in(all[m], all));
        assert(stands_in(all[m], out));
    }
}

/// Whether `out` is what an answer to a search says of the fork at position `i` of a chunk. An empty
/// answer and an error about nothing in particular fail them all. Else the fork goes by its alias,
/// the letter `s` and its position: it failed where an error is about it, with the message of the
/// first, else its items tell of what was found, of nothing where there is nothing under its alias.
/// Its upstream is told whatever came.
pub open spec fn says_of_fork(
    out: ResultView,
    target: ForkTarget,
    i: nat,
    envelope: SearchEnvelope,
) -> bool {
    let errors = errors_told(envelope.errors);
    let alias = seq!['s'] + decimal(i);
    let general = exists|k: int| 0 <= k < errors.len() && about_none(#[trigger] errors[k]);
    let empty = envelope.data is None && errors.len() == 0;
    &&& out.repo == target.repo@
    &&& out.upstream == Some(target.parent@)
    &&& empty ==> out.status == StatusView::Error(ErrorView::Api("empty GraphQL response"@))
    &&& general ==> out.status == StatusView::Error(
        ErrorView::Api(join(general_messages(errors), "; "@)),
    )
    &&& !empty && !general ==> {
        &&& !(out.status is NotFound)
        &&& out.status is Error <==> blamed(errors, alias)
        &&& out.status matches StatusView::Error(e) ==> e matches ErrorView::Api(message)
            && first_told(errors, alias, message)
        &&& out.status matches StatusView::Items(items) ==> match held(envelope.data, alias) {
            Some(found) => tell_of_search(items, found.nodes@),
            None => items.len() == 0,
        }
    }
}

/// An answer to a search is read for each fork of its chunk by the alias that it goes by.
pub proof fn searches_are_read_by_alias(
    chunk: Seq<(usize, &ForkTarget)>,
    envelope: SearchEnvelope,
    clocks: Seq<Seq<Timestamp>>,
    i: int,
)
    requires
        0 <= i < chunk.len(),
    ensures
        search_parsed(chunk, envelope, clocks).len() == chunk.len(),
        search_parsed(chunk, envelope, clocks)[i].0 == chunk[i].0,
        says_of_fork(
            search_parsed(chunk, envelope, clocks)[i].1,
            *chunk[i].1,
            i as nat,
            envelope,
        ),
{
    let errors = errors_told(envelope.errors);
    let alias = seq!['s'] + decimal(i as nat);
    assert(errors == errors_in(envelope.errors));
    assert(alias == search_alias(i as nat));
    pathless_errors_are_general(errors);
    first_messages_are_first(errors, alias, false);
    let data = data_in(envelope.data);
    assert((data.contains_key(alias) && data[alias] is Some) == held(envelope.data, alias) is Some);
    if let Some(found) = held(envelope.data, alias) {
        assert(data[alias] == Some(found));
        found_items_tell_of_their_nodes(found.nodes@, clocks[i]);
    }
}

/// How a review stands is told for the three words that GitHub has for it, and for nothing else.
pub proof fn reviews_are_told_in_words(raw: Seq<char>)
    ensures
        review_words(None) is None,
        raw == "APPROVED"@ ==> review_words(Some(raw)) == Some("approved"@),
        raw == "CHANGES_REQUESTED"@ ==> review_words(Some(raw)) == Some("changes requested"@),
        raw == "REVIEW_REQUIRED"@ ==> review_words(Some(raw)) == Some("review pending"@),
        review_words(Some(raw)) is Some ==> raw == "APPROVED"@ || raw == "CHANGES_REQUESTED"@ || raw
            == "REVIEW_REQUIRED"@,
{
    reveal_strlit("APPROVED");
    reveal_strlit("CHANGES_REQUESTED");
    reveal_strlit("REVIEW_REQUIRED");
    assert("APPROVED"@.len() == 8 && "CHANGES_REQUESTED"@.len() == 17 && "REVIEW_REQUIRED"@.len()
        == 15);
}

/// A manual entry settles the upstream whatever GitHub tells, and an empty one settles that there
/// is none; without an entry GitHub's word stands.
pub proof fn manual_entries_settle_the_upstream(entry: Seq<char>, detected: Option<Seq<char>>)
    ensures
        effective_parent(None, detected) == detected,
        entry.len() > 0 ==> effective_parent(Some(entry), detected) == Some(entry),
        entry.len() == 0 ==> effective_parent(Some(entry), detected) is None,
{
}

/// Whether `part` stands in `s` somewhere.
pub open spec fn holds_text(s: Seq<char>, part: Seq<char>) -> bool {
    exists|a: Seq<char>, b: Seq<char>| s == #[trigger] (a + part + b)
}

proof fn holds_within(s: Seq<char>, whole: Seq<char>, part: Seq<char>)
    requires
        holds_text(s, whole),
        holds_text(whole, part),
    ensures
        holds_text(s, part),
{
    let (a, b) = choose|a: Seq<char>, b: Seq<char>| s == #[trigger] (a + whole + b);
    let (c, d) = choose|c: Seq<char>, d: Seq<char>| whole == #[trigger] (c + part + d);
    assert(s =~= (a + c) + part + (d + b));
}

proof fn parts_stand_in_the_text(parts: Seq<Seq<char>>, i: int)
    requires
        0 <= i < parts.len(),
    ensures
        holds_text(
            parts.fold_left(Seq::empty(), |text: Seq<char>, part: Seq<char>| text + part),
            parts[i],
        ),
    decreases parts.len(),
{
    let add = |text: Seq<char>, part: Seq<char>| text + part;
    let t = parts.drop_last();
    let head = t.fold_left(Seq::empty(), add);
    let all = parts.fold_left(Seq::empty(), add);
    reveal(Seq::fold_left);
    assert(all == head + parts.last());
    if i == parts.len() - 1 {
        assert(all =~= head + parts[i] + Seq::empty());
    } else {
        parts_stand_in_the_text(t, i);
        assert(t[i] == parts[i]);
        let (a, b) = choose|a: Seq<char>, b: Seq<char>| head == #[trigger] (a + parts[i] + b);
        assert(all =~= a + parts[i] + (b + parts.last()));
    }
}

proof fn parts_stand_in_the_query(parts: Seq<Seq<char>>, i: int)
    requires
        0 <= i < parts.len(),
    ensures
        holds_text(query_of(parts), parts[i]),
{
    let text = parts.fold_left(Seq::empty(), |text: Seq<char>, part: Seq<char>| text + part);
    parts_stand_in_the_text(parts, i);
    assert(query_of(parts) == "query {"@ + text + "\n}"@);
    assert(holds_text(query_of(parts), text));
    holds_within(query_of(parts), text, parts[i]);
}

/// A query about a chunk asks, of each repository under its alias, for the open issues and the open
/// pull requests, a hundred of each, and whether it is a fork and of what: owner and name stand
/// each in its place.
pub proof fn queries_ask_for_each_repo(chunk: Seq<ValidRepo>, i: int)
    requires
        0 <= i < chunk.len(),
    ensures
        holds_text(
            query_of(repo_parts_of(chunk)),
            "\n  r"@ + decimal(i as nat) + ": repository(owner: "@ + quoted(chunk[i].owner@)
                + ", name: "@ + quoted(chunk[i].name@)
                + ") {\n    isFork\n    parent { nameWithOwner }\n    issues(states: OPEN, first: "@
                + decimal(100)
                + ") { totalCount nodes { number title createdAt updatedAt author { login } } }\n    pullRequests(states: OPEN, first: "@
                + decimal(100)
                + ") { totalCount nodes { number title createdAt updatedAt author { login } isDraft } }\n  }"@,
        ),
{
    parts_stand_in_the_query(repo_parts_of(chunk), i);
}

/// A query that searches for a chunk of forks asks, for each under its alias, for the open items of
/// the fork's owner at the fork's upstream, a hundred of them, and for what is told of each.
pub proof fn searches_ask_for_each_fork(chunk: Seq<(usize, &ForkTarget)>, i: int)
    requires
        0 <= i < chunk.len(),
    ensures
        holds_text(
            query_of(search_parts_of(chunk)),
            "\n  s"@ + decimal(i as nat) + ": search(query: "@ + quoted(
                "repo:"@ + chunk[i].1.parent@ + " author:"@ + chunk[i].1.fork_owner@ + " is:open"@,
            ) + ", type: ISSUE, first: "@ + decimal(100)
                + ") { nodes { __typename ... on Issue { number title createdAt updatedAt author { login } comments { totalCount } } ... on PullRequest { number title createdAt updatedAt author { login } comments { totalCount } isDraft reviewDecision } } }"@,
        ),
{
    parts_stand_in_the_query(search_parts_of(chunk), i);
}

/// A query asks for as much as its parts ask for: each part more makes it longer by that part, in
/// front of the bracket that ends it, and one without parts asks for nothing.
pub proof fn queries_hold_their_parts(parts: Seq<Seq<char>>, part: Seq<char>)
    ensures
        query_of(Seq::empty()) == "query {"@ + "\n}"@,
        exists|body: Seq<char>|
            query_of(parts) == #[trigger] ("query {"@ + body + "\n}"@) && query_of(parts.push(part))
                == "query {"@ + (body + part) + "\n}"@,
{
    let add = |text: Seq<char>, part: Seq<char>| text + part;
    reveal(Seq::fold_left);
    let none = Seq::<Seq<char>>::empty().fold_left(Seq::empty(), add);
    assert(none =~= Seq::empty());
    assert("query {"@ + none =~= "query {"@);
    let body = parts.fold_left(Seq::empty(), add);
    assert(parts.push(part).drop_last() =~= parts);
    assert(query_of(parts) == "query {"@ + body + "\n}"@);
}

} // verus!
