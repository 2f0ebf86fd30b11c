use ghpending::http_status::HttpStatus;
use ghpending::model::{
    item_cmp, sort_items, ItemKind, RepoError, RepoItem, RepoResult, RepoStatus, Timestamp,
};

fn make_item(kind: ItemKind, number: u64) -> RepoItem {
    RepoItem {
        kind,
        number,
        title: format!("item {number}"),
        created_at: Timestamp { secs: 0, nanos: 0 },
        updated_at: Timestamp { secs: 0, nanos: 0 },
        author: "user".into(),
        pr_draft: None,
        comments: None,
        review_decision: None,
        mine: false,
    }
}

#[test]
fn model_item_cmp_sorts_prs_before_issues_then_number_desc() {
    let mut items = [
        make_item(ItemKind::Issue, 5),
        make_item(ItemKind::PullRequest, 2),
        make_item(ItemKind::Issue, 10),
        make_item(ItemKind::PullRequest, 8),
    ];
    items.sort_by(item_cmp);
    let numbers: Vec<u64> = items.iter().map(|i| i.number).collect();
    assert_eq!(numbers, vec![8, 2, 10, 5]);
}

#[test]
fn sort_items_agrees_with_the_comparison() {
    let items = vec![
        make_item(ItemKind::Issue, 5),
        make_item(ItemKind::PullRequest, 2),
        make_item(ItemKind::Issue, 10),
        make_item(ItemKind::PullRequest, 8),
    ];
    let numbers: Vec<u64> = sort_items(items).iter().map(|i| i.number).collect();
    assert_eq!(numbers, vec![8, 2, 10, 5]);
}

#[test]
fn errors_tell_themselves() {
    assert_eq!(RepoError::Timeout.message(), "timeout after 30s");
    assert_eq!(RepoError::Api("boom".into()).message(), "boom");
    assert_eq!(RepoError::Api("boom".into()).clone(), RepoError::Api("boom".into()));
}

#[test]
fn results_carry_an_upstream_only_when_told() {
    let plain = RepoResult::new("a/b".into(), RepoStatus::NotFound);
    assert_eq!(plain.upstream, None);
    let fork = plain.with_upstream("up/b".into());
    assert_eq!(fork.repo, "a/b");
    assert_eq!(fork.upstream.as_deref(), Some("up/b"));
}

#[test]
fn timestamps_compare_seconds_then_nanoseconds() {
    let a = Timestamp { secs: 1, nanos: 5 };
    let b = Timestamp { secs: 1, nanos: 6 };
    let c = Timestamp { secs: 2, nanos: 0 };
    assert!(a.is_before(&b));
    assert!(b.is_before(&c));
    assert!(!a.is_before(&a));
}

#[test]
fn status_codes_have_three_digits_and_a_phrase() {
    assert!(HttpStatus::new(99).is_none());
    assert!(HttpStatus::new(1000).is_none());
    let status = HttpStatus::new(404).unwrap();
    assert_eq!(status.code(), 404);
    assert_eq!(status.text(), "404 Not Found");
    assert!(!status.is_success());
    assert!(HttpStatus::new(204).unwrap().is_success());
}

#[test]
fn cloned_results_say_the_same() {
    let mut item = make_item(ItemKind::PullRequest, 3);
    item.review_decision = Some("approved".into());
    let result = RepoResult::new("a/b".into(), RepoStatus::Items(vec![item]))
        .with_upstream("up/b".into());
    let copy = result.clone();
    assert_eq!(copy.repo, "a/b");
    assert_eq!(copy.upstream.as_deref(), Some("up/b"));
    let RepoStatus::Items(items) = &copy.status else {
        panic!("expected items")
    };
    assert_eq!(items[0].number, 3);
    assert_eq!(items[0].title, "item 3");
    assert_eq!(items[0].review_decision.as_deref(), Some("approved"));
    assert!(matches!(RepoStatus::NotFound.clone(), RepoStatus::NotFound));
}
