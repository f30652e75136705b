//! The run orchestrator's decisions: which repositories of the catalog a
//! sweep takes up, how the outcomes of the repositories add up, and what the
//! sweep reports at its end.

use crate::registry::Catalog;
use crate::report::{append_decimal, decimal, join_lines, joined};
use crate::rules::{patterns_of, regex_matches, CompiledRule};
use crate::text::texts;
use crate::worker::{RepositoryError, RunOutcome};
use vstd::prelude::*;

verus! {

/// Whether the rules admit a repository: every repository where there is no
/// rule, and otherwise the repositories that some rule accepts.
pub open spec fn admitted(rules: Seq<Seq<char>>, repository: Seq<char>) -> bool {
    rules.len() == 0 || exists|i: int|
        0 <= i < rules.len() && regex_matches(#[trigger] rules[i], repository)
}

/// The test for the repositories that the rules admit.
pub open spec fn admitted_by(rules: Seq<Seq<char>>) -> spec_fn(Seq<char>) -> bool {
    |repository: Seq<char>| admitted(rules, repository)
}

/// The test for the repositories that the rules pass over.
pub open spec fn skipped_by(rules: Seq<Seq<char>>) -> spec_fn(Seq<char>) -> bool {
    |repository: Seq<char>| !admitted(rules, repository)
}

/// Whether the rules admit a repository.
pub fn admits(rules: &Vec<CompiledRule>, repository: &str) -> (taken: bool)
    ensures
        taken == admitted(patterns_of(rules@), repository@),
{
    if rules.len() == 0 {
        return true;
    }
    let ghost patterns = patterns_of(rules@);
    let mut i: usize = 0;
    while i < rules.len()
        invariant
            i <= rules@.len(),
            patterns == patterns_of(rules@),
            forall|k: int| 0 <= k < i ==> !regex_matches(#[trigger] patterns[k], repository@),
        decreases rules@.len() - i,
    {
        if rules[i].accepts(repository) {
            proof {
                assert(regex_matches(patterns[i as int], repository@));
            }
            return true;
        }
        i = i + 1;
    }
    false
}

/// The repositories of a catalog, parted into those that a sweep takes up and
/// those that it passes over, each part in the order of the catalog.
#[derive(Debug, Clone)]
pub struct Selection {
    pub admitted: Vec<String>,
    pub skipped: Vec<String>,
}

/// Parts the repositories of a catalog by the rules.
pub fn select_repositories(catalog: &Catalog, rules: &Vec<CompiledRule>) -> (selection: Selection)
    ensures
        texts(selection.admitted@) == catalog@.filter(admitted_by(patterns_of(rules@))),
        texts(selection.skipped@) == catalog@.filter(skipped_by(patterns_of(rules@))),
{
    let repositories = catalog.repositories();
    let ghost all = texts(repositories@);
    let ghost patterns = patterns_of(rules@);
    let mut admitted: Vec<String> = Vec::new();
    let mut skipped: Vec<String> = Vec::new();
    proof {
        assert(all.take(0) =~= Seq::<Seq<char>>::empty());
        all.take(0).lemma_filter_len(admitted_by(patterns));
        all.take(0).lemma_filter_len(skipped_by(patterns));
        assert(texts(admitted@) =~= all.take(0).filter(admitted_by(patterns)));
        assert(texts(skipped@) =~= all.take(0).filter(skipped_by(patterns)));
    }
    let mut i: usize = 0;
    while i < repositories.len()
        invariant
            i <= repositories@.len(),
            all == texts(repositories@),
            patterns == patterns_of(rules@),
            texts(admitted@) == all.take(i as int).filter(admitted_by(patterns)),
            texts(skipped@) == all.take(i as int).filter(skipped_by(patterns)),
        decreases repositories@.len() - i,
    {
        let repository = repositories[i].clone();
        proof {
            assert(all.take(i + 1) =~= all.take(i as int).push(repository@));
            all.take(i as int).lemma_filter_push(repository@, admitted_by(patterns));
            all.take(i as int).lemma_filter_push(repository@, skipped_by(patterns));
        }
        let ghost admitted_before = texts(admitted@);
        let ghost skipped_before = texts(skipped@);
        if admits(rules, repository.as_str()) {
            admitted.push(repository);
            proof {
                assert(texts(admitted@) =~= admitted_before.push(repository@));
            }
        } else {
            skipped.push(repository);
            proof {
                assert(texts(skipped@) =~= skipped_before.push(repository@));
            }
        }
        i = i + 1;
    }
    proof {
        assert(all.take(i as int) =~= all);
    }
    Selection { admitted, skipped }
}

/// The notice that a repository is passed over.
pub fn skip_notice() -> (notice: String)
    ensures
        notice@ == "Image doesn't match any of the images specified."@,
{
    "Image doesn't match any of the images specified.".to_owned()
}

/// What a sweep has come to so far: whether it deletes or only looks, the
/// number of tags marked for deletion in the repositories whose runs ended
/// with an outcome, and the failures of the others.
#[derive(Debug, Clone)]
pub struct RunSummary {
    pub execute: bool,
    pub total: usize,
    pub errors: Vec<RepositoryError>,
}

/// The messages of a list of failures.
pub open spec fn messages_of(errors: Seq<RepositoryError>) -> Seq<Seq<char>> {
    Seq::new(errors.len(), |i: int| errors[i].message@)
}

/// The block of the closing report that lists the failures.
pub open spec fn errors_block(messages: Seq<Seq<char>>) -> Seq<char> {
    "The following errors occured during processing:\n\t"@ + joined(messages, "\n\t"@) + "\n"@
}

/// The line of the closing report that gives the total.
pub open spec fn total_line(execute: bool, total: nat) -> Seq<char> {
    if execute {
        "\n\tDeleted a total of "@ + decimal(total) + " tag(s)"@
    } else {
        "\n\tFound a total of "@ + decimal(total) + " tag(s) to delete"@
    }
}

/// The last line of the closing report: after deletions the reminder that
/// the registry has yet to collect its garbage, after a dry run the reminder
/// that nothing was deleted.
pub open spec fn reminder_line(execute: bool) -> Seq<char> {
    if execute {
        "\n\tRemember to run garbage collection on your registry to ensure that files get removed on disk."@
    } else {
        "\n\tDelete flag (-d/--delete) not specified, none of the above have actually been deleted."@
    }
}

/// The closing report, piece by piece: the block of failures where there was
/// any, the total, and the reminder.
pub open spec fn closing_report(execute: bool, total: nat, messages: Seq<Seq<char>>) -> Seq<
    Seq<char>,
> {
    if messages.len() > 0 {
        seq![errors_block(messages), total_line(execute, total), reminder_line(execute)]
    } else {
        seq![total_line(execute, total), reminder_line(execute)]
    }
}

impl RunSummary {
    /// The summary of a sweep in which no run has ended yet.
    pub fn new(execute: bool) -> (summary: RunSummary)
        ensures
            summary.execute == execute,
            summary.total == 0,
            summary.errors@.len() == 0,
    {
        RunSummary { execute, total: 0, errors: Vec::new() }
    }

    /// Whether the count of an outcome can be added to the total.
    pub fn fits(&self, outcome: &RunOutcome) -> (fit: bool)
        ensures
            fit == (self.total + outcome.count <= usize::MAX),
    {
        outcome.count <= usize::MAX - self.total
    }

    /// Takes in the end of one repository's run. An outcome adds its count to
    /// the total, and its log comes back as one text to print, line by line.
    /// A failure joins the failures and leaves the total as it is.
    pub fn record(&mut self, ended: Result<RunOutcome, RepositoryError>) -> (printed: Option<
        String,
    >)
        requires
            ended matches Ok(outcome) ==> old(self).total + outcome.count <= usize::MAX,
        ensures
            final(self).execute == old(self).execute,
            match ended {
                Ok(outcome) => {
                    &&& final(self).total == old(self).total + outcome.count
                    &&& final(self).errors@ == old(self).errors@
                    &&& printed matches Some(text)
                    &&& text@ == joined(texts(outcome.log@), "\n"@)
                },
                Err(error) => {
                    &&& final(self).total == old(self).total
                    &&& final(self).errors@ == old(self).errors@.push(error)
                    &&& printed is None
                },
            },
    {
        match ended {
            Ok(outcome) => {
                self.total = self.total + outcome.count;
                Some(join_lines(&outcome.log, "\n"))
            },
            Err(error) => {
                self.errors.push(error);
                None
            },
        }
    }

    /// The closing report of the sweep, piece by piece.
    pub fn report(&self) -> (pieces: Vec<String>)
        ensures
            texts(pieces@) == closing_report(
                self.execute,
                self.total as nat,
                messages_of(self.errors@),
            ),
    {
        let mut pieces: Vec<String> = Vec::new();
        if self.errors.len() > 0 {
            let mut messages: Vec<String> = Vec::new();
            let mut i: usize = 0;
            while i < self.errors.len()
                invariant
                    i <= self.errors@.len(),
                    messages@.len() == i,
                    forall|k: int| 0 <= k < i ==> messages@[k]@ == self.errors@[k].message@,
                decreases self.errors@.len() - i,
            {
                messages.push(self.errors[i].message.clone());
                i = i + 1;
            }
            proof {
                assert(texts(messages@) =~= messages_of(self.errors@));
            }
            let mut block = "The following errors occured during processing:\n\t".to_owned();
            let listed = join_lines(&messages, "\n\t");
            block.append(listed.as_str());
            block.append("\n");
            pieces.push(block);
        }
        let mut total = if self.execute {
            "\n\tDeleted a total of ".to_owned()
        } else {
            "\n\tFound a total of ".to_owned()
        };
        append_decimal(&mut total, self.total);
        if self.execute {
            total.append(" tag(s)");
        } else {
            total.append(" tag(s) to delete");
        }
        pieces.push(total);
        let reminder = if self.execute {
            "\n\tRemember to run garbage collection on your registry to ensure that files get removed on disk.".to_owned()
        } else {
            "\n\tDelete flag (-d/--delete) not specified, none of the above have actually been deleted.".to_owned()
        };
        pieces.push(reminder);
        proof {
            assert(texts(pieces@) =~= closing_report(
                self.execute,
                self.total as nat,
                messages_of(self.errors@),
            ));
        }
        pieces
    }
}

} // verus!
