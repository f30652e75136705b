//! Retention sweep for container image tags.
//!
//! The library holds the decisions of a sweep: which tags of a repository
//! fall under which pattern, which of them are kept and which are removal
//! candidates, and how one repository's run proceeds from one registry reply
//! to the next. Talking to the registry is left to the caller.
//!
//! - `rules` compiles the patterns that select repositories and tags.
//! - `buckets` sorts the tags of a repository into buckets by the tag rules.
//! - `ranking` orders the tags of a bucket and splits them at the limit.
//! - `versions` tells which tags name a semantic version and compares them.
//! - `worker` takes one repository's run step by step.
//! - `sweep` selects the repositories and sums up the runs.
//! - `registry` holds the listings, the paths and the reading of digests.
//! - `report` and `text` write the lines and compare strings.

pub mod buckets;
pub mod ranking;
pub mod registry;
pub mod report;
pub mod rules;
pub mod sweep;
pub mod text;
pub mod versions;
pub mod worker;

pub use buckets::{get_matching_tags, TagBuckets};
pub use ranking::classify_tags;
pub use registry::{Catalog, ImageTagList};
pub use rules::{compile_rules, CompiledRule, ConfigurationError};
pub use sweep::{select_repositories, RunSummary};
pub use worker::{begin_with_tags, RepositoryError, RunOutcome, WorkerStep};
