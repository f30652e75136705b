use registry_sweep::registry::Catalog;
use registry_sweep::rules::{compile_rules, CompiledRule};
use registry_sweep::sweep::{admits, select_repositories, skip_notice, RunSummary};
use registry_sweep::worker::{listing_failed, RepositoryError, RunOutcome};

fn image_rules(patterns: &[&str]) -> Vec<CompiledRule> {
    compile_rules(&patterns.iter().map(|s| s.to_string()).collect()).unwrap()
}

fn names_of(items: &[&str]) -> Vec<String> {
    items.iter().map(|s| s.to_string()).collect()
}

fn outcome_of(lines: &[&str], count: usize) -> RunOutcome {
    RunOutcome { log: names_of(lines), count }
}

fn error_of(repository: &str, message: &str) -> RepositoryError {
    RepositoryError { repository: repository.to_string(), message: message.to_string() }
}

#[test]
fn without_rules_every_repository_is_admitted() {
    assert!(admits(&Vec::new(), "anything"));
    assert!(admits(&Vec::new(), ""));
}

#[test]
fn with_rules_a_repository_needs_one_that_accepts_it() {
    let rules = image_rules(&["^library/", "nginx"]);
    assert!(admits(&rules, "library/redis"));
    assert!(admits(&rules, "team/nginx"));
    assert!(!admits(&rules, "team/redis"));
}

#[test]
fn selection_parts_the_catalog_in_order() {
    let catalog = Catalog::new(names_of(&["a/x", "b/y", "a/z", "c"]));
    let selection = select_repositories(&catalog, &image_rules(&["^a/"]));
    assert_eq!(selection.admitted, names_of(&["a/x", "a/z"]));
    assert_eq!(selection.skipped, names_of(&["b/y", "c"]));
    let everything = select_repositories(&catalog, &Vec::new());
    assert_eq!(everything.admitted, names_of(&["a/x", "b/y", "a/z", "c"]));
    assert!(everything.skipped.is_empty());
}

#[test]
fn skip_notice_has_its_words() {
    assert_eq!(skip_notice(), "Image doesn't match any of the images specified.");
}

#[test]
fn failed_repository_adds_an_error_and_no_count() {
    let mut summary = RunSummary::new(false);
    let printed = summary.record(Ok(outcome_of(&["[a] tag to be deleted x"], 1)));
    assert_eq!(printed, Some("[a] tag to be deleted x".to_string()));
    let printed = summary.record(Err(error_of("b", "tag list: 500")));
    assert_eq!(printed, None);
    let printed = summary.record(Ok(outcome_of(&["l1", "l2"], 4)));
    assert_eq!(printed, Some("l1\nl2".to_string()));
    assert_eq!(summary.total, 5);
    assert_eq!(summary.errors.len(), 1);
    assert_eq!(summary.errors[0].repository, "b");
    assert_eq!(summary.errors[0].message, "tag list: 500");
    assert!(!summary.execute);
}

#[test]
fn fits_tells_when_the_total_would_overflow() {
    let mut summary = RunSummary::new(true);
    assert!(summary.fits(&outcome_of(&[], usize::MAX)));
    summary.record(Ok(outcome_of(&[], usize::MAX - 1)));
    assert!(summary.fits(&outcome_of(&[], 1)));
    assert!(!summary.fits(&outcome_of(&[], 2)));
}

#[test]
fn dry_run_report_says_what_would_be_deleted() {
    let mut summary = RunSummary::new(false);
    summary.record(Ok(outcome_of(&[], 3)));
    assert_eq!(
        summary.report(),
        names_of(&[
            "\n\tFound a total of 3 tag(s) to delete",
            "\n\tDelete flag (-d/--delete) not specified, none of the above have actually been deleted.",
        ])
    );
}

#[test]
fn live_report_reminds_of_garbage_collection() {
    let mut summary = RunSummary::new(true);
    summary.record(Ok(outcome_of(&[], 12)));
    assert_eq!(
        summary.report(),
        names_of(&[
            "\n\tDeleted a total of 12 tag(s)",
            "\n\tRemember to run garbage collection on your registry to ensure that files get removed on disk.",
        ])
    );
}

#[test]
fn report_lists_the_errors_first() {
    let mut summary = RunSummary::new(false);
    summary.record(Err(error_of("a", "first")));
    summary.record(Err(error_of("b", "second")));
    assert_eq!(
        summary.report(),
        names_of(&[
            "The following errors occured during processing:\n\tfirst\n\tsecond\n",
            "\n\tFound a total of 0 tag(s) to delete",
            "\n\tDelete flag (-d/--delete) not specified, none of the above have actually been deleted.",
        ])
    );
}

#[test]
fn failed_listing_leaves_the_other_repositories_their_counts() {
    let mut summary = RunSummary::new(true);
    summary.record(Ok(outcome_of(&["[a] Deleted x"], 2)));
    summary.record(Err(listing_failed("b".to_string(), "503 Service Unavailable".to_string())));
    summary.record(Ok(outcome_of(&["[c] Deleted y"], 3)));
    assert_eq!(summary.total, 5);
    assert_eq!(summary.errors.len(), 1);
    assert_eq!(summary.errors[0].repository, "b");
    assert_eq!(summary.errors[0].message, "503 Service Unavailable");
    assert_eq!(
        summary.report(),
        names_of(&[
            "The following errors occured during processing:\n\t503 Service Unavailable\n",
            "\n\tDeleted a total of 5 tag(s)",
            "\n\tRemember to run garbage collection on your registry to ensure that files get removed on disk.",
        ])
    );
}
