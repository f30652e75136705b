use registry_sweep::buckets::{get_matching_tags, TagBuckets};
use registry_sweep::registry::ImageTagList;
use registry_sweep::rules::{compile_rules, CompiledRule};
use registry_sweep::worker::{begin, begin_with_tags, plan_removals, RunOutcome, WorkerStep};

fn tag_listing(items: &[&str]) -> ImageTagList {
    ImageTagList::new(items.iter().map(|s| s.to_string()).collect())
}

fn compiled(patterns: &[&str]) -> Vec<CompiledRule> {
    compile_rules(&patterns.iter().map(|s| s.to_string()).collect()).unwrap()
}

fn lines_of(items: &[&str]) -> Vec<String> {
    items.iter().map(|s| s.to_string()).collect()
}

/// Drives a run to its end with a registry that has the digest `sha256:` and
/// the tag for every tag but those in `missing`. Returns the outcome with the
/// digests resolved and the digests deleted, in their order.
fn drive(first: WorkerStep, missing: &[&str]) -> (RunOutcome, Vec<String>, Vec<String>) {
    let mut resolved = Vec::new();
    let mut deleted = Vec::new();
    let mut step = first;
    loop {
        step = match step {
            WorkerStep::Resolve(pending) => {
                let tag = pending.tag().to_string();
                resolved.push(tag.clone());
                if missing.contains(&tag.as_str()) {
                    pending.resolved(None)
                } else {
                    pending.resolved(Some(format!("sha256:{}", tag)))
                }
            }
            WorkerStep::Delete(pending) => {
                deleted.push(pending.digest().to_string());
                pending.deleted()
            }
            WorkerStep::Done(outcome) => return (outcome, resolved, deleted),
        };
    }
}

#[test]
fn dry_run_logs_and_counts_without_deleting() {
    let first = begin_with_tags(
        "app".to_string(),
        &tag_listing(&["c", "a", "b", "d"]),
        &Vec::new(),
        2,
        false,
        false,
    );
    let (outcome, resolved, deleted) = drive(first, &[]);
    assert_eq!(resolved, lines_of(&["b", "a"]));
    assert!(deleted.is_empty());
    assert_eq!(outcome.count, 2);
    assert_eq!(
        outcome.log,
        lines_of(&[
            "[app] Found 2 tags eligable for deletion for pattern /.*/",
            "[app] tag to be deleted b",
            "[app] tag to be deleted a",
        ])
    );
}

#[test]
fn live_run_deletes_each_resolved_tag_once() {
    let first = begin_with_tags(
        "app".to_string(),
        &tag_listing(&["c", "a", "b", "d"]),
        &Vec::new(),
        1,
        false,
        true,
    );
    let (outcome, resolved, deleted) = drive(first, &["b"]);
    assert_eq!(resolved, lines_of(&["c", "b", "a"]));
    assert_eq!(deleted, lines_of(&["sha256:c", "sha256:a"]));
    assert_eq!(outcome.count, 2);
    assert_eq!(
        outcome.log,
        lines_of(&[
            "[app] Found 3 tags eligable for deletion for pattern /.*/",
            "[app] tag to be deleted c",
            "[app] Deleted c",
            "[app] WARNING: Couldn't find tag digest for b",
            "[app] tag to be deleted a",
            "[app] Deleted a",
        ])
    );
}

#[test]
fn missing_digest_warns_and_does_not_count() {
    let first = begin_with_tags(
        "app".to_string(),
        &tag_listing(&["2.0.0", "1.0.0", "1.5.0"]),
        &Vec::new(),
        1,
        true,
        false,
    );
    let (outcome, resolved, deleted) = drive(first, &["1.5.0"]);
    assert_eq!(resolved, lines_of(&["1.5.0", "1.0.0"]));
    assert!(deleted.is_empty());
    assert_eq!(outcome.count, 1);
    assert_eq!(
        outcome.log,
        lines_of(&[
            "[app] Found 2 tags eligable for deletion for pattern /.*/",
            "[app] WARNING: Couldn't find tag digest for 1.5.0",
            "[app] tag to be deleted 1.0.0",
        ])
    );
}

#[test]
fn all_digests_missing_ends_with_nothing_eligible() {
    let first = begin_with_tags(
        "app".to_string(),
        &tag_listing(&["b", "a", "c"]),
        &Vec::new(),
        2,
        false,
        true,
    );
    let (outcome, resolved, deleted) = drive(first, &["a"]);
    assert_eq!(resolved, lines_of(&["a"]));
    assert!(deleted.is_empty());
    assert_eq!(outcome.count, 0);
    assert_eq!(
        outcome.log,
        lines_of(&[
            "[app] Found 1 tags eligable for deletion for pattern /.*/",
            "[app] WARNING: Couldn't find tag digest for a",
            "[app] No tags eligable for deletion found.",
        ])
    );
}

#[test]
fn no_buckets_end_the_run_at_once() {
    let first = begin_with_tags(
        "app".to_string(),
        &tag_listing(&["latest"]),
        &compiled(&["^dev-"]),
        1,
        false,
        true,
    );
    match first {
        WorkerStep::Done(outcome) => {
            assert_eq!(outcome.count, 0);
            assert_eq!(outcome.log, lines_of(&["[app] No tags eligable for deletion found."]));
        }
        _ => panic!("the run went on"),
    }
}

#[test]
fn nothing_behind_the_limit_ends_the_run_at_once() {
    let first = begin_with_tags(
        "app".to_string(),
        &tag_listing(&["a", "b"]),
        &Vec::new(),
        5,
        false,
        false,
    );
    match first {
        WorkerStep::Done(outcome) => {
            assert_eq!(outcome.count, 0);
            assert_eq!(outcome.log, lines_of(&["[app] No tags eligable for deletion found."]));
        }
        _ => panic!("the run went on"),
    }
}

#[test]
fn each_bucket_is_announced_before_its_tags() {
    let first = begin_with_tags(
        "lib/x".to_string(),
        &tag_listing(&["dev-1", "v1.0.0", "dev-2", "v1.1.0", "dev-3", "keep"]),
        &compiled(&["^dev-", "^v", "^keep$"]),
        1,
        false,
        false,
    );
    let (outcome, resolved, deleted) = drive(first, &[]);
    assert_eq!(resolved, lines_of(&["dev-2", "dev-1", "v1.0.0"]));
    assert!(deleted.is_empty());
    assert_eq!(outcome.count, 3);
    assert_eq!(
        outcome.log,
        lines_of(&[
            "[lib/x] Found 2 tags eligable for deletion for pattern /^dev-/",
            "[lib/x] tag to be deleted dev-2",
            "[lib/x] tag to be deleted dev-1",
            "[lib/x] Found 1 tags eligable for deletion for pattern /^v/",
            "[lib/x] tag to be deleted v1.0.0",
        ])
    );
}

#[test]
fn a_tag_in_two_buckets_is_a_candidate_in_each() {
    let first = begin_with_tags(
        "app".to_string(),
        &tag_listing(&["a1", "a2"]),
        &compiled(&["^a", "1$|2$"]),
        1,
        false,
        true,
    );
    let (outcome, resolved, deleted) = drive(first, &[]);
    assert_eq!(resolved, lines_of(&["a1", "a1"]));
    assert_eq!(deleted, lines_of(&["sha256:a1", "sha256:a1"]));
    assert_eq!(outcome.count, 2);
}

#[test]
fn semver_run_leaves_other_tags_alone() {
    let first = begin_with_tags(
        "app".to_string(),
        &tag_listing(&["v1.2.0", "v1.1.0", "v2.0.0", "latest"]),
        &Vec::new(),
        1,
        true,
        true,
    );
    let (outcome, resolved, deleted) = drive(first, &[]);
    assert_eq!(resolved, lines_of(&["v1.2.0", "v1.1.0"]));
    assert_eq!(deleted, lines_of(&["sha256:v1.2.0", "sha256:v1.1.0"]));
    assert_eq!(outcome.count, 2);
}

#[test]
fn plan_has_a_batch_for_each_bucket_with_removals() {
    let buckets = get_matching_tags(
        &tag_listing(&["dev-1", "v1.0.0", "dev-2", "solo"]),
        &compiled(&["^dev-", "^v", "^solo$"]),
    );
    let plan = plan_removals(&buckets, 1, false);
    assert_eq!(plan.len(), 1);
    assert_eq!(plan.pattern(0), "^dev-");
    assert_eq!(plan.tags(0), &lines_of(&["dev-1"]));
    let plan = plan_removals(&buckets, 0, false);
    assert_eq!(plan.len(), 3);
    assert_eq!(plan.pattern(1), "^v");
    assert_eq!(plan.tags(1), &lines_of(&["v1.0.0"]));
    let nothing = plan_removals(&TagBuckets::new(), 1, false);
    assert_eq!(nothing.len(), 0);
}

#[test]
fn begin_with_a_plan_asks_for_the_first_digest() {
    let buckets = get_matching_tags(&tag_listing(&["x", "y"]), &Vec::new());
    let plan = plan_removals(&buckets, 1, false);
    match begin("repo".to_string(), true, plan) {
        WorkerStep::Resolve(pending) => {
            assert_eq!(pending.repository(), "repo");
            assert_eq!(pending.tag(), "x");
            match pending.resolved(Some("sha256:1".to_string())) {
                WorkerStep::Delete(delete) => {
                    assert_eq!(delete.repository(), "repo");
                    assert_eq!(delete.tag(), "x");
                    assert_eq!(delete.digest(), "sha256:1");
                }
                _ => panic!("no deletion was asked for"),
            }
        }
        _ => panic!("no digest was asked for"),
    }
}

#[test]
fn a_failed_digest_request_ends_the_run_with_an_error() {
    let first = begin_with_tags(
        "app".to_string(),
        &tag_listing(&["b", "a"]),
        &Vec::new(),
        1,
        false,
        true,
    );
    match first {
        WorkerStep::Resolve(pending) => {
            let error = pending.failed("connection reset".to_string());
            assert_eq!(error.repository, "app");
            assert_eq!(error.message, "connection reset");
        }
        _ => panic!("no digest was asked for"),
    }
}

#[test]
fn a_failed_deletion_ends_the_run_with_an_error() {
    let first = begin_with_tags(
        "app".to_string(),
        &tag_listing(&["b", "a"]),
        &Vec::new(),
        1,
        false,
        true,
    );
    match first {
        WorkerStep::Resolve(pending) => match pending.resolved(Some("sha256:a".to_string())) {
            WorkerStep::Delete(delete) => {
                let error = delete.failed("405 Method Not Allowed".to_string());
                assert_eq!(error.repository, "app");
                assert_eq!(error.message, "405 Method Not Allowed");
            }
            _ => panic!("no deletion was asked for"),
        },
        _ => panic!("no digest was asked for"),
    }
}
