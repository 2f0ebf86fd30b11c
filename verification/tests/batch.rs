use ghpending::batch::{chunk_outcome, fork_chunk, fork_chunk_outcome, Batch, ForkRun, Reply};
use ghpending::github::{own_result, ApiFailure, ForkCache};
use ghpending::graphql::{
    ChunkItem, Connection, ForkTarget, GraphQlEnvelope, Parent, RepoNode, SearchEnvelope,
};
use ghpending::model::{RepoError, RepoResult, RepoStatus};
use ghpending::name_map::NameMap;

fn names(prefix: &str, n: usize) -> Vec<String> {
    (0..n).map(|i| format!("{prefix}/{i}")).collect()
}

fn node(total: u64, parent: Option<&str>) -> Option<RepoNode> {
    Some(RepoNode {
        issues: Connection { total_count: total, nodes: vec![] },
        pull_requests: Connection { total_count: 0, nodes: vec![] },
        is_fork: parent.is_some(),
        parent: parent.map(|name| Parent { name_with_owner: name.to_owned() }),
    })
}

fn target(index: usize) -> ForkTarget {
    ForkTarget {
        original_index: index,
        repo: format!("me/{index}"),
        parent: format!("up/{index}"),
        fork_owner: "me".into(),
    }
}

fn failed(index: usize, repo: &str) -> ChunkItem {
    ChunkItem {
        original_index: index,
        repo: repo.to_owned(),
        status: RepoStatus::Error(RepoError::Timeout),
        needs_fallback: false,
        fork_parent: None,
    }
}

#[test]
fn chunks_hold_forty_and_four_run_at_a_time() {
    let mut batch = Batch::new(names("a", 201));
    let mut lengths = Vec::new();
    while let Some(k) = batch.next_chunk() {
        lengths.push(batch.chunk(k).len());
    }
    assert_eq!(lengths, vec![40, 40, 40, 40]);
    batch.on_chunk(vec![], &ForkCache::new());
    assert_eq!(batch.next_chunk(), Some(4));
    assert_eq!(batch.next_chunk(), None);
    batch.on_chunk(vec![], &ForkCache::new());
    let last = batch.next_chunk().unwrap();
    assert_eq!(batch.chunk(last).len(), 1);
    assert_eq!(batch.chunk(last)[0].repo, "a/200");
    assert_eq!(batch.next_chunk(), None);
    assert!(!batch.is_idle());
}

#[test]
fn bad_names_are_absent_and_unanswered_repos_time_out() {
    let batch = Batch::new(vec!["nonsense".into(), "a/b".into()]);
    assert!(batch.is_idle());
    let (results, cache) = batch.finish();
    assert_eq!(results[0].repo, "nonsense");
    assert!(matches!(results[0].status, RepoStatus::NotFound));
    assert_eq!(results[1].repo, "a/b");
    assert!(matches!(results[1].status, RepoStatus::Error(RepoError::Timeout)));
    assert!(cache.is_empty());
}

#[test]
fn whole_batch_ends_in_the_order_of_the_list() {
    let repos: Vec<String> = ["a/plain", "bad", "a/busy", "me/fork", "me/out", "a/err"]
        .iter()
        .map(|name| name.to_string())
        .collect();
    let mut overrides = ForkCache::new();
    overrides.insert("me/out".into(), String::new());
    let mut batch = Batch::new(repos);
    let k = batch.next_chunk().unwrap();
    let mut data = NameMap::new();
    data.insert("r0".to_owned(), node(1, None));
    data.insert("r1".to_owned(), node(101, None));
    data.insert("r2".to_owned(), node(101, Some("up/fork")));
    data.insert("r3".to_owned(), node(1, Some("up/out")));
    let reply = Reply::Answer(GraphQlEnvelope { data: Some(data), errors: None });
    let mut items = chunk_outcome(batch.chunk(k), reply, None);
    assert_eq!(items.len(), 5);
    // what is not in the answer is absent; here it failed instead
    items[4] = failed(5, "a/err");
    items.reverse();
    batch.on_chunk(items, &overrides);
    assert!(batch.is_idle());

    assert_eq!(batch.overflow_repos(), vec!["a/busy"]);
    let forks = batch.overflow_forks();
    assert_eq!(forks.get("a/busy").map(String::as_str), Some(""));
    batch.on_overflow(vec![own_result("a/busy", Ok(vec![]))]);

    let targets = batch.fork_targets();
    assert_eq!(targets.len(), 1);
    assert_eq!(targets[0].repo, "me/fork");
    assert_eq!(targets[0].parent, "up/fork");
    assert_eq!(targets[0].fork_owner, "me");
    let mut run = ForkRun::new(targets);
    let k = run.next_chunk().unwrap();
    let chunk = fork_chunk(targets, k);
    let results = fork_chunk_outcome(&chunk, Reply::TimedOut);
    run.on_chunk(results);
    assert!(run.is_idle());
    let fork_results = run.finish(batch.fork_targets());
    batch.on_forks(fork_results);

    let (results, cache) = batch.finish();
    let labels: Vec<&str> = results.iter().map(|r| r.repo.as_str()).collect();
    assert_eq!(labels, vec!["a/plain", "bad", "a/busy", "me/fork", "me/out", "a/err"]);
    assert!(matches!(results[0].status, RepoStatus::Items(_)));
    assert!(matches!(results[1].status, RepoStatus::NotFound));
    assert_eq!(results[3].upstream.as_deref(), Some("up/fork"));
    assert!(matches!(results[3].status, RepoStatus::Error(RepoError::Timeout)));
    assert_eq!(results[4].upstream, None);
    assert!(matches!(results[5].status, RepoStatus::Error(RepoError::Timeout)));

    assert_eq!(cache.get("a/plain").map(String::as_str), Some(""));
    assert_eq!(cache.get("me/fork").map(String::as_str), Some("up/fork"));
    // the manual entry sticks
    assert_eq!(cache.get("me/out").map(String::as_str), Some(""));
    assert_eq!(cache.get("a/err"), None);
}

#[test]
fn failed_replies_fail_the_whole_chunk() {
    let mut batch = Batch::new(names("a", 2));
    let k = batch.next_chunk().unwrap();
    let failure = ApiFailure::Other("no route".into());
    let items = chunk_outcome(batch.chunk(k), Reply::Failed(failure), None);
    assert!(items.iter().all(|item| matches!(
        &item.status,
        RepoStatus::Error(RepoError::Api(text)) if text == "no route"
    )));
    let items = chunk_outcome(batch.chunk(k), Reply::TimedOut, None);
    assert!(items
        .iter()
        .all(|item| matches!(item.status, RepoStatus::Error(RepoError::Timeout))));
}

#[test]
fn fork_chunks_carry_positions() {
    let targets: Vec<ForkTarget> = (0..45).map(target).collect();
    let chunk = fork_chunk(&targets, 1);
    assert_eq!(chunk.len(), 5);
    assert_eq!(chunk[0].0, 40);
    assert_eq!(chunk[4].1.repo, "me/44");
    let failure = ApiFailure::Other("no route".into());
    let results = fork_chunk_outcome(&chunk, Reply::Failed(failure));
    assert_eq!(results[4].0, 44);
    assert_eq!(results[4].1.upstream.as_deref(), Some("up/44"));
    let answer = SearchEnvelope { data: Some(NameMap::new()), errors: None };
    let results = fork_chunk_outcome(&chunk, Reply::Answer(answer));
    assert!(matches!(&results[0].1.status, RepoStatus::Items(items) if items.is_empty()));
}

#[test]
fn unanswered_forks_time_out_with_their_upstream() {
    let targets: Vec<ForkTarget> = (0..2).map(target).collect();
    let mut run = ForkRun::new(&targets);
    assert_eq!(run.next_chunk(), Some(0));
    let found = RepoResult::new("me/1".into(), RepoStatus::Items(vec![]))
        .with_upstream("up/1".into());
    run.on_chunk(vec![(1, found)]);
    assert_eq!(run.next_chunk(), None);
    let results = run.finish(&targets);
    assert!(matches!(results[0].status, RepoStatus::Error(RepoError::Timeout)));
    assert_eq!(results[0].upstream.as_deref(), Some("up/0"));
    assert!(matches!(results[1].status, RepoStatus::Items(_)));
}

#[test]
fn replies_are_taken_in_by_chunk() {
    let mut batch = Batch::new(names("a", 41));
    assert_eq!(batch.next_chunk(), Some(0));
    assert_eq!(batch.next_chunk(), Some(1));
    let mut data = NameMap::new();
    data.insert("r0".to_owned(), node(1, None));
    let reply = Reply::Answer(GraphQlEnvelope { data: Some(data), errors: None });
    batch.on_reply(1, reply, None, &ForkCache::new());
    batch.on_reply(0, Reply::TimedOut, None, &ForkCache::new());
    let (results, _) = batch.finish();
    assert!(matches!(results[0].status, RepoStatus::Error(RepoError::Timeout)));
    assert_eq!(results[40].repo, "a/40");
    assert!(matches!(results[40].status, RepoStatus::Items(_)));

    let targets: Vec<ForkTarget> = (0..2).map(target).collect();
    let mut run = ForkRun::new(&targets);
    let k = run.next_chunk().unwrap();
    run.on_reply(&targets, k, Reply::Failed(ApiFailure::Other("no route".into())));
    let results = run.finish(&targets);
    assert_eq!(results[1].repo, "me/1");
    assert!(matches!(
        &results[1].status,
        RepoStatus::Error(RepoError::Api(text)) if text == "no route"
    ));
}
