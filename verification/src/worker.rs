//! The repository worker: one repository's run, from the listing of its tags
//! to its outcome. The worker decides and the caller acts: each step names
//! the one call to make to the registry next, and the reply to that call
//! leads to the next step.

use crate::buckets::{classification, get_matching_tags, lists, TagBuckets};
use crate::ranking::{classify_tags, eligible, is_ranking, kept};
use crate::registry::ImageTagList;
use crate::report::{
    deleted_line, eligible_line, missing_digest_line, nothing_eligible_line, to_be_deleted_line,
    write_deleted, write_eligible, write_missing_digest, write_nothing_eligible,
    write_to_be_deleted,
};
use crate::rules::{patterns_of, CompiledRule};
use crate::text::{copy_of, texts};
use vstd::prelude::*;

verus! {

/// The tags of one bucket that are to be removed, as texts.
pub struct BatchView {
    pub pattern: Seq<char>,
    pub tags: Seq<Seq<char>>,
}

/// The tags of one bucket that are to be removed, from the highest rank down.
/// A batch holds at least one tag.
struct RemovalBatch {
    pattern: String,
    tags: Vec<String>,
}

impl View for RemovalBatch {
    type V = BatchView;

    closed spec fn view(&self) -> BatchView {
        BatchView { pattern: self.pattern@, tags: texts(self.tags@) }
    }
}

/// The texts of a list of batches.
spec fn batch_views(batches: Seq<RemovalBatch>) -> Seq<BatchView> {
    Seq::new(batches.len(), |i: int| batches[i]@)
}

/// What is to be removed from a repository: a batch for each bucket from
/// which anything is to be removed, in the order of the buckets.
pub struct RemovalPlan {
    batches: Vec<RemovalBatch>,
}

impl View for RemovalPlan {
    type V = Seq<BatchView>;

    closed spec fn view(&self) -> Seq<BatchView> {
        batch_views(self.batches@)
    }
}

/// Whether `remove` is what a ranking of the tags leaves to be removed under
/// the limit: the tags of the ranking behind the kept ones.
pub open spec fn is_removal(
    tags: Seq<Seq<char>>,
    limit: int,
    semver: bool,
    remove: Seq<Seq<char>>,
) -> bool {
    exists|keep: Seq<Seq<char>>|
        is_ranking(tags, semver, #[trigger] (keep + remove)) && keep.len() == kept(
            limit,
            eligible(tags, semver).len() as int,
        )
}

/// The batches of the buckets `names`, of which `removes` are to be removed:
/// one for each bucket of which anything is to be removed.
pub open spec fn batches_of(names: Seq<Seq<char>>, removes: Seq<Seq<Seq<char>>>) -> Seq<BatchView>
    decreases names.len(),
{
    if names.len() == 0 || removes.len() == 0 {
        Seq::empty()
    } else {
        let front = batches_of(names.drop_last(), removes.drop_last());
        if removes.last().len() > 0 {
            front.push(BatchView { pattern: names.last(), tags: removes.last() })
        } else {
            front
        }
    }
}

/// Whether `plan` is a plan for the buckets with the given names and
/// contents: bucket by bucket it holds what a ranking of the bucket's tags
/// leaves to be removed.
pub open spec fn is_plan_for(
    names: Seq<Seq<char>>,
    contents: Seq<Seq<Seq<char>>>,
    limit: int,
    semver: bool,
    plan: Seq<BatchView>,
) -> bool {
    exists|removes: Seq<Seq<Seq<char>>>|
        {
            &&& removes.len() == names.len()
            &&& forall|i: int|
                0 <= i < names.len() ==> is_removal(contents[i], limit, semver, #[trigger] removes[i])
            &&& plan == #[trigger] batches_of(names, removes)
        }
}

impl RemovalPlan {
    #[verifier::type_invariant]
    spec fn batches_hold_tags(&self) -> bool {
        forall|i: int| 0 <= i < self.batches@.len() ==> (#[trigger] self.batches@[i]).tags@.len() > 0
    }

    /// The number of batches.
    pub fn len(&self) -> (count: usize)
        ensures
            count == self@.len(),
    {
        self.batches.len()
    }

    /// The pattern of the batch at a place.
    pub fn pattern(&self, place: usize) -> (pattern: &str)
        requires
            place < self@.len(),
        ensures
            pattern@ == self@[place as int].pattern,
    {
        self.batches[place].pattern.as_str()
    }

    /// The tags of the batch at a place.
    pub fn tags(&self, place: usize) -> (tags: &Vec<String>)
        requires
            place < self@.len(),
        ensures
            texts(tags@) == self@[place as int].tags,
            tags@.len() > 0,
    {
        proof {
            use_type_invariant(self);
        }
        &self.batches[place].tags
    }
}

/// Plans the removals of a repository: ranks the tags of each bucket and
/// notes, for each bucket of which a tag falls behind the limit, the tags
/// that do.
pub fn plan_removals(buckets: &TagBuckets, max_per_tag: usize, semver: bool) -> (plan: RemovalPlan)
    ensures
        is_plan_for(buckets.names(), buckets.contents(), max_per_tag as int, semver, plan@),
        holds_tags(plan@),
{
    let mut batches: Vec<RemovalBatch> = Vec::new();
    let ghost mut removes: Seq<Seq<Seq<char>>> = Seq::empty();
    let ghost names = buckets.names();
    let ghost contents = buckets.contents();
    let count = buckets.len();
    proof {
        assert(names.take(0) =~= Seq::<Seq<char>>::empty());
        assert(batch_views(batches@) =~= Seq::<BatchView>::empty());
    }
    let mut i: usize = 0;
    while i < count
        invariant
            i <= count,
            count == names.len(),
            names == buckets.names(),
            contents == buckets.contents(),
            contents.len() == names.len(),
            removes.len() == i,
            forall|k: int|
                0 <= k < i ==> is_removal(
                    contents[k],
                    max_per_tag as int,
                    semver,
                    #[trigger] removes[k],
                ),
            batch_views(batches@) == batches_of(names.take(i as int), removes),
            forall|k: int| 0 <= k < batches@.len() ==> (#[trigger] batches@[k]).tags@.len() > 0,
        decreases count - i,
    {
        let tags = copy_of(buckets.tags(i));
        let (keep, remove) = classify_tags(tags, max_per_tag, semver);
        proof {
            let old_removes = removes;
            removes = removes.push(texts(remove@));
            assert(is_removal(contents[i as int], max_per_tag as int, semver, texts(remove@))) by {
                assert(is_ranking(contents[i as int], semver, texts(keep@) + texts(remove@)));
            }
            assert(names.take(i + 1).drop_last() =~= names.take(i as int));
            assert(removes.drop_last() =~= old_removes);
            assert(names.take(i + 1).last() == names[i as int]);
        }
        if remove.len() > 0 {
            let ghost before = batch_views(batches@);
            let batch = RemovalBatch { pattern: buckets.name(i).to_owned(), tags: remove };
            batches.push(batch);
            proof {
                assert(batch_views(batches@) =~= before.push(batch@));
            }
        }
        i = i + 1;
    }
    proof {
        assert(names.take(i as int) =~= names);
        lemma_batches_hold_tags(names, removes);
    }
    RemovalPlan { batches }
}

/// What a repository's run comes to: the lines of its log, in the order in
/// which they were written, and the number of tags marked for deletion.
#[derive(Debug, Clone)]
pub struct RunOutcome {
    pub log: Vec<String>,
    pub count: usize,
}

/// A failure that ends the run of one repository.
#[derive(Debug, Clone)]
pub struct RepositoryError {
    pub repository: String,
    pub message: String,
}

/// Where a run stands, as texts and numbers: the plan, the place in it of the
/// tag that is being dealt with, the log so far and the count so far.
pub struct ProgressView {
    pub repository: Seq<char>,
    pub execute: bool,
    pub plan: Seq<BatchView>,
    pub batch: int,
    pub item: int,
    pub log: Seq<Seq<char>>,
    pub count: nat,
}

/// A step of a run, as texts and numbers.
pub enum StepView {
    /// The digest of the current tag is to be resolved.
    Resolve(ProgressView),
    /// The manifest with the given digest, which is that of the current tag,
    /// is to be deleted.
    Delete(ProgressView, Seq<char>),
    /// The run has ended with this log and this count.
    Done(Seq<Seq<char>>, nat),
}

/// The tag that is being dealt with.
pub open spec fn current_tag(progress: ProgressView) -> Seq<char> {
    progress.plan[progress.batch].tags[progress.item]
}

/// The first step of a run. An empty plan ends the run at once, with the one
/// line that nothing is to be deleted. Otherwise the first batch is announced
/// and the digest of its first tag is asked for.
pub open spec fn opening(repository: Seq<char>, execute: bool, plan: Seq<BatchView>) -> StepView {
    if plan.len() == 0 {
        StepView::Done(seq![nothing_eligible_line(repository)], 0)
    } else {
        StepView::Resolve(
            ProgressView {
                repository,
                execute,
                plan,
                batch: 0,
                item: 0,
                log: seq![eligible_line(repository, plan[0].tags.len(), plan[0].pattern)],
                count: 0,
            },
        )
    }
}

/// The step that follows once the current tag has been dealt with: the next
/// tag of the batch; or, behind the last tag of a batch, the announcement of
/// the next batch and its first tag; or, behind the last batch, the end of the
/// run, with the line that nothing was to be deleted where the count is zero.
pub open spec fn following(progress: ProgressView) -> StepView {
    if progress.item + 1 < progress.plan[progress.batch].tags.len() {
        StepView::Resolve(ProgressView { item: progress.item + 1, ..progress })
    } else if progress.batch + 1 < progress.plan.len() {
        let next = progress.plan[progress.batch + 1];
        StepView::Resolve(
            ProgressView {
                batch: progress.batch + 1,
                item: 0,
                log: progress.log.push(
                    eligible_line(progress.repository, next.tags.len(), next.pattern),
                ),
                ..progress
            },
        )
    } else if progress.count == 0 {
        StepView::Done(progress.log.push(nothing_eligible_line(progress.repository)), 0)
    } else {
        StepView::Done(progress.log, progress.count)
    }
}

/// The step that follows the reply to a digest request. Without a digest a
/// warning is logged and the tag is passed over. With a digest the tag is
/// logged as to be deleted; a dry run counts it and goes on, a live run asks
/// for the deletion.
pub open spec fn after_digest(progress: ProgressView, digest: Option<Seq<char>>) -> StepView {
    match digest {
        None => following(
            ProgressView {
                log: progress.log.push(
                    missing_digest_line(progress.repository, current_tag(progress)),
                ),
                ..progress
            },
        ),
        Some(found) => {
            let noted = ProgressView {
                log: progress.log.push(
                    to_be_deleted_line(progress.repository, current_tag(progress)),
                ),
                ..progress
            };
            if progress.execute {
                StepView::Delete(noted, found)
            } else {
                following(ProgressView { count: noted.count + 1, ..noted })
            }
        },
    }
}

/// The step that follows a deletion that succeeded: the tag is logged as
/// deleted and counted.
pub open spec fn after_delete(progress: ProgressView) -> StepView {
    following(
        ProgressView {
            log: progress.log.push(deleted_line(progress.repository, current_tag(progress))),
            count: progress.count + 1,
            ..progress
        },
    )
}

/// Whether `step` is a first step of the run of a repository with the given
/// tags under the given rules: the first step with a plan of removals for the
/// buckets that the rules make of the tags, the buckets taken in some order.
pub open spec fn opens_run_of(
    tags: Seq<Seq<char>>,
    rules: Seq<Seq<char>>,
    limit: int,
    semver: bool,
    repository: Seq<char>,
    execute: bool,
    step: StepView,
) -> bool {
    exists|names: Seq<Seq<char>>, contents: Seq<Seq<Seq<char>>>, plan: Seq<BatchView>|
        {
            &&& lists(classification(tags, rules), names, contents)
            &&& #[trigger] is_plan_for(names, contents, limit, semver, plan)
            &&& step == opening(repository, execute, plan)
        }
}

/// The log that a step has come to.
pub open spec fn log_of(step: StepView) -> Seq<Seq<char>> {
    match step {
        StepView::Resolve(progress) => progress.log,
        StepView::Delete(progress, _) => progress.log,
        StepView::Done(log, _) => log,
    }
}

/// The count that a step has come to.
pub open spec fn count_of(step: StepView) -> nat {
    match step {
        StepView::Resolve(progress) => progress.count,
        StepView::Delete(progress, _) => progress.count,
        StepView::Done(_, count) => count,
    }
}

/// A dry run never asks for a deletion, whatever is to be removed and
/// whatever the registry replies.
pub proof fn lemma_dry_run_deletes_nothing(
    repository: Seq<char>,
    plan: Seq<BatchView>,
    progress: ProgressView,
    digest: Option<Seq<char>>,
)
    requires
        !progress.execute,
    ensures
        !(opening(repository, false, plan) is Delete),
        !(after_digest(progress, digest) is Delete),
{
}

/// A live run asks for one deletion for each tag whose digest was resolved,
/// that of the manifest with that digest, and for none where the registry
/// has no digest for the tag. Nothing else leads to a deletion.
pub proof fn lemma_live_run_deletes_resolved(
    repository: Seq<char>,
    plan: Seq<BatchView>,
    progress: ProgressView,
    digest: Seq<char>,
)
    requires
        progress.execute,
    ensures
        after_digest(progress, Some(digest)) matches StepView::Delete(pending, asked) && asked
            == digest && current_tag(pending) == current_tag(progress),
        !(after_digest(progress, None) is Delete),
        !(after_delete(progress) is Delete),
        !(opening(repository, true, plan) is Delete),
{
}

/// A tag for which the registry has no digest adds a warning to the log and
/// leaves the count as it is.
pub proof fn lemma_missing_digest_warns(progress: ProgressView)
    ensures
        count_of(after_digest(progress, None)) == progress.count,
        log_of(after_digest(progress, None)).len() > progress.log.len(),
        log_of(after_digest(progress, None)).take(progress.log.len() as int + 1) == progress.log.push(
            missing_digest_line(progress.repository, current_tag(progress)),
        ),
{
    let warned = progress.log.push(missing_digest_line(progress.repository, current_tag(progress)));
    let log = log_of(after_digest(progress, None));
    assert(log.take(progress.log.len() as int + 1) =~= warned);
}

/// Whether every batch of a plan holds a tag.
pub open spec fn holds_tags(plan: Seq<BatchView>) -> bool {
    forall|i: int| 0 <= i < plan.len() ==> (#[trigger] plan[i]).tags.len() > 0
}

/// Whether a run stands at a tag of its plan.
pub open spec fn stands_in_plan(progress: ProgressView) -> bool {
    &&& holds_tags(progress.plan)
    &&& 0 <= progress.batch < progress.plan.len()
    &&& 0 <= progress.item < progress.plan[progress.batch].tags.len()
}

/// The number of tags in the batches of a plan from the given batch on.
pub open spec fn tags_from(plan: Seq<BatchView>, batch: int) -> nat
    decreases plan.len() - batch,
{
    if batch < 0 || batch >= plan.len() {
        0
    } else {
        plan[batch].tags.len() + tags_from(plan, batch + 1)
    }
}

/// The number of tags that a run has yet to deal with, the current tag among
/// them.
pub open spec fn tags_left(progress: ProgressView) -> int {
    tags_from(progress.plan, progress.batch) - progress.item
}

/// The step that follows the reply to a digest request once the deletion that
/// the reply may lead to has succeeded.
pub open spec fn after_reply(progress: ProgressView, digest: Option<Seq<char>>) -> StepView {
    match after_digest(progress, digest) {
        StepView::Delete(pending, _) => after_delete(pending),
        step => step,
    }
}

/// The deletions that the reply to a digest request leads to: the digests of
/// the manifests to delete.
pub open spec fn deletions_after(progress: ProgressView, digest: Option<Seq<char>>) -> Seq<
    Seq<char>,
> {
    match after_digest(progress, digest) {
        StepView::Delete(_, asked) => seq![asked],
        _ => Seq::empty(),
    }
}

/// The step that a run comes to from `step` where the registry replies to the
/// digest requests with `digests`, in their order, and every deletion
/// succeeds.
pub open spec fn run_on(step: StepView, digests: Seq<Option<Seq<char>>>) -> StepView
    decreases digests.len(),
{
    match step {
        StepView::Resolve(progress) => if digests.len() == 0 {
            step
        } else {
            run_on(after_reply(progress, digests[0]), digests.drop_first())
        },
        _ => step,
    }
}

/// The deletions that a run asks for from `step` on where the registry
/// replies to the digest requests with `digests`, in their order, and every
/// deletion succeeds.
pub open spec fn deletions_on(step: StepView, digests: Seq<Option<Seq<char>>>) -> Seq<Seq<char>>
    decreases digests.len(),
{
    match step {
        StepView::Resolve(progress) => if digests.len() == 0 {
            Seq::empty()
        } else {
            deletions_after(progress, digests[0]) + deletions_on(
                after_reply(progress, digests[0]),
                digests.drop_first(),
            )
        },
        _ => Seq::empty(),
    }
}

/// The digests among the replies, in their order.
pub open spec fn resolved_among(digests: Seq<Option<Seq<char>>>) -> Seq<Seq<char>>
    decreases digests.len(),
{
    if digests.len() == 0 {
        Seq::empty()
    } else {
        match digests[0] {
            Some(found) => seq![found] + resolved_among(digests.drop_first()),
            None => resolved_among(digests.drop_first()),
        }
    }
}

/// The batches of a plan for any buckets hold a tag each.
pub proof fn lemma_batches_hold_tags(names: Seq<Seq<char>>, removes: Seq<Seq<Seq<char>>>)
    ensures
        holds_tags(batches_of(names, removes)),
    decreases names.len(),
{
    if names.len() > 0 && removes.len() > 0 {
        lemma_batches_hold_tags(names.drop_last(), removes.drop_last());
    }
}

/// A run whose plan holds a tag in each batch begins at a tag of its plan.
pub proof fn lemma_run_begins_in_plan(repository: Seq<char>, execute: bool, plan: Seq<BatchView>)
    requires
        holds_tags(plan),
    ensures
        opening(repository, execute, plan) matches StepView::Resolve(first) ==> stands_in_plan(
            first,
        ),
{
}

/// A run that stands at a tag of its plan goes on to stand at one, whatever
/// the registry replies.
pub proof fn lemma_run_stays_in_plan(progress: ProgressView, digest: Option<Seq<char>>)
    requires
        stands_in_plan(progress),
    ensures
        after_digest(progress, digest) matches StepView::Resolve(next) ==> stands_in_plan(next),
        after_digest(progress, digest) matches StepView::Delete(next, _) ==> stands_in_plan(next),
        after_delete(progress) matches StepView::Resolve(next) ==> stands_in_plan(next),
        after_reply(progress, digest) matches StepView::Resolve(next) ==> stands_in_plan(next),
{
}

/// A run from a tag of its plan to the end of the plan, with a reply for each
/// tag that is left: it ends, its count has grown by the number of digests
/// that the registry had, and it has asked for the deletion of exactly those
/// digests if it is a live run, and for no deletion if it is a dry run.
pub proof fn lemma_run_from(progress: ProgressView, digests: Seq<Option<Seq<char>>>)
    requires
        stands_in_plan(progress),
        digests.len() == tags_left(progress),
    ensures
        run_on(StepView::Resolve(progress), digests) is Done,
        count_of(run_on(StepView::Resolve(progress), digests)) == progress.count + resolved_among(
            digests,
        ).len(),
        deletions_on(StepView::Resolve(progress), digests) == if progress.execute {
            resolved_among(digests)
        } else {
            Seq::empty()
        },
    decreases digests.len(),
{
    let plan = progress.plan;
    assert(tags_from(plan, progress.batch) == plan[progress.batch].tags.len() + tags_from(
        plan,
        progress.batch + 1,
    ));
    if progress.batch + 1 < plan.len() {
        assert(tags_from(plan, progress.batch + 1) == plan[progress.batch + 1].tags.len()
            + tags_from(plan, progress.batch + 2));
    } else {
        assert(tags_from(plan, progress.batch + 1) == 0);
    }
    let digest = digests[0];
    let rest = digests.drop_first();
    let next = after_reply(progress, digest);
    let start = StepView::Resolve(progress);
    lemma_run_stays_in_plan(progress, digest);
    assert(run_on(start, digests) == run_on(next, rest));
    assert(deletions_on(start, digests) == deletions_after(progress, digest) + deletions_on(
        next,
        rest,
    ));
    assert(deletions_after(progress, digest) =~= match digest {
        Some(found) => if progress.execute {
            seq![found]
        } else {
            Seq::empty()
        },
        None => Seq::empty(),
    });
    assert(resolved_among(digests) =~= match digest {
        Some(found) => seq![found] + resolved_among(rest),
        None => resolved_among(rest),
    });
    assert(count_of(next) == progress.count + match digest {
        Some(_) => 1nat,
        None => 0nat,
    });
    match next {
        StepView::Resolve(onward) => {
            assert(onward.plan == plan);
            assert(tags_left(onward) == tags_left(progress) - 1);
            lemma_run_from(onward, rest);
            assert(deletions_on(StepView::Resolve(progress), digests) =~= if progress.execute {
                resolved_among(digests)
            } else {
                Seq::empty()
            });
        },
        StepView::Delete(_, _) => {},
        StepView::Done(_, _) => {
            assert(rest.len() == 0);
            assert(resolved_among(rest) =~= Seq::<Seq<char>>::empty());
            assert(deletions_on(StepView::Resolve(progress), digests) =~= if progress.execute {
                resolved_among(digests)
            } else {
                Seq::empty()
            });
        },
    }
}

/// A whole run, with a reply for each tag of the plan: it ends, its count is
/// the number of digests that the registry had, and it has asked for the
/// deletion of exactly those digests, each once and in their order, if it is
/// a live run, and for no deletion at all if it is a dry run.
pub proof fn lemma_whole_run(
    repository: Seq<char>,
    execute: bool,
    plan: Seq<BatchView>,
    digests: Seq<Option<Seq<char>>>,
)
    requires
        holds_tags(plan),
        digests.len() == tags_from(plan, 0),
    ensures
        run_on(opening(repository, execute, plan), digests) is Done,
        count_of(run_on(opening(repository, execute, plan), digests)) == resolved_among(
            digests,
        ).len(),
        deletions_on(opening(repository, execute, plan), digests) == if execute {
            resolved_among(digests)
        } else {
            Seq::empty()
        },
{
    match opening(repository, execute, plan) {
        StepView::Resolve(progress) => {
            lemma_run_from(progress, digests);
        },
        _ => {
            assert(digests.len() == 0);
            assert(resolved_among(digests) =~= Seq::<Seq<char>>::empty());
        },
    }
}

/// The lines that one tag adds to the log: a warning where the registry has
/// no digest for it; otherwise the notice that it is to be deleted, and in a
/// live run the notice that it was deleted.
pub open spec fn lines_of_tag(
    repository: Seq<char>,
    execute: bool,
    tag: Seq<char>,
    digest: Option<Seq<char>>,
) -> Seq<Seq<char>> {
    match digest {
        None => seq![missing_digest_line(repository, tag)],
        Some(_) => if execute {
            seq![to_be_deleted_line(repository, tag), deleted_line(repository, tag)]
        } else {
            seq![to_be_deleted_line(repository, tag)]
        },
    }
}

/// The lines that the tags of a batch add to the log from the tag at `item`
/// on, with the registry's replies for these tags.
pub open spec fn lines_of_tags(
    repository: Seq<char>,
    execute: bool,
    tags: Seq<Seq<char>>,
    item: int,
    digests: Seq<Option<Seq<char>>>,
) -> Seq<Seq<char>>
    decreases tags.len() - item,
{
    if item < 0 || item >= tags.len() || digests.len() == 0 {
        Seq::empty()
    } else {
        lines_of_tag(repository, execute, tags[item], digests[0]) + lines_of_tags(
            repository,
            execute,
            tags,
            item + 1,
            digests.drop_first(),
        )
    }
}

/// The lines that the batches of a plan add to the log from the given batch
/// on, with the registry's replies for their tags: for each batch its
/// announcement and then the lines of its tags.
pub open spec fn lines_of_batches(
    repository: Seq<char>,
    execute: bool,
    plan: Seq<BatchView>,
    batch: int,
    digests: Seq<Option<Seq<char>>>,
) -> Seq<Seq<char>>
    decreases plan.len() - batch,
{
    if batch < 0 || batch >= plan.len() {
        Seq::empty()
    } else {
        let tags = plan[batch].tags;
        seq![eligible_line(repository, tags.len(), plan[batch].pattern)] + lines_of_tags(
            repository,
            execute,
            tags,
            0,
            digests.take(tags.len() as int),
        ) + lines_of_batches(repository, execute, plan, batch + 1, digests.skip(tags.len() as int))
    }
}

/// The last line of a log: that nothing was to be deleted, where nothing was
/// counted.
pub open spec fn closing_lines(repository: Seq<char>, count: nat) -> Seq<Seq<char>> {
    if count == 0 {
        seq![nothing_eligible_line(repository)]
    } else {
        Seq::empty()
    }
}

/// The log of a run from a tag of its plan to the end of the plan, with a
/// reply for each tag that is left: the log so far, the lines of the tags
/// left in the current batch, the lines of the batches behind it, and the
/// closing line where nothing was counted.
pub proof fn lemma_log_from(progress: ProgressView, digests: Seq<Option<Seq<char>>>)
    requires
        stands_in_plan(progress),
        digests.len() == tags_left(progress),
    ensures
        log_of(run_on(StepView::Resolve(progress), digests)) == progress.log + lines_of_tags(
            progress.repository,
            progress.execute,
            progress.plan[progress.batch].tags,
            progress.item,
            digests.take(progress.plan[progress.batch].tags.len() - progress.item),
        ) + lines_of_batches(
            progress.repository,
            progress.execute,
            progress.plan,
            progress.batch + 1,
            digests.skip(progress.plan[progress.batch].tags.len() - progress.item),
        ) + closing_lines(
            progress.repository,
            count_of(run_on(StepView::Resolve(progress), digests)),
        ),
    decreases digests.len(),
{
    let plan = progress.plan;
    let repository = progress.repository;
    let execute = progress.execute;
    let tags = plan[progress.batch].tags;
    let here = tags.len() - progress.item;
    assert(tags_from(plan, progress.batch) == tags.len() + tags_from(plan, progress.batch + 1));
    if progress.batch + 1 < plan.len() {
        assert(tags_from(plan, progress.batch + 1) == plan[progress.batch + 1].tags.len()
            + tags_from(plan, progress.batch + 2));
    } else {
        assert(tags_from(plan, progress.batch + 1) == 0);
    }
    let digest = digests[0];
    let rest = digests.drop_first();
    let next = after_reply(progress, digest);
    let start = StepView::Resolve(progress);
    let own = lines_of_tag(repository, execute, tags[progress.item], digest);
    lemma_run_stays_in_plan(progress, digest);
    assert(run_on(start, digests) == run_on(next, rest));
    assert(digests.take(here)[0] == digest);
    assert(digests.take(here).drop_first() =~= rest.take(here - 1));
    assert(digests.skip(here) =~= rest.skip(here - 1));
    assert(lines_of_tags(repository, execute, tags, progress.item, digests.take(here)) == own
        + lines_of_tags(repository, execute, tags, progress.item + 1, rest.take(here - 1)));
    match next {
        StepView::Resolve(onward) => {
            lemma_run_from(onward, rest);
            lemma_log_from(onward, rest);
            if progress.item + 1 < tags.len() {
                assert(onward.log =~= progress.log + own);
                assert(log_of(run_on(start, digests)) =~= progress.log + lines_of_tags(
                    repository,
                    execute,
                    tags,
                    progress.item,
                    digests.take(here),
                ) + lines_of_batches(
                    repository,
                    execute,
                    plan,
                    progress.batch + 1,
                    digests.skip(here),
                ) + closing_lines(repository, count_of(run_on(start, digests))));
            } else {
                let ahead = plan[progress.batch + 1];
                let announcement = eligible_line(repository, ahead.tags.len(), ahead.pattern);
                assert(here == 1);
                assert(onward.log =~= progress.log + own + seq![announcement]);
                assert(lines_of_tags(repository, execute, tags, progress.item + 1, rest.take(0))
                    =~= Seq::<Seq<char>>::empty());
                assert(rest.skip(0) =~= rest);
                assert(lines_of_batches(repository, execute, plan, progress.batch + 1, rest)
                    == seq![announcement] + lines_of_tags(
                    repository,
                    execute,
                    ahead.tags,
                    0,
                    rest.take(ahead.tags.len() as int),
                ) + lines_of_batches(
                    repository,
                    execute,
                    plan,
                    progress.batch + 2,
                    rest.skip(ahead.tags.len() as int),
                ));
                assert(log_of(run_on(start, digests)) =~= progress.log + lines_of_tags(
                    repository,
                    execute,
                    tags,
                    progress.item,
                    digests.take(here),
                ) + lines_of_batches(
                    repository,
                    execute,
                    plan,
                    progress.batch + 1,
                    digests.skip(here),
                ) + closing_lines(repository, count_of(run_on(start, digests))));
            }
        },
        StepView::Delete(_, _) => {},
        StepView::Done(log, count) => {
            assert(here == 1);
            assert(rest.len() == 0);
            assert(lines_of_tags(repository, execute, tags, progress.item + 1, rest.take(0))
                =~= Seq::<Seq<char>>::empty());
            assert(lines_of_batches(repository, execute, plan, progress.batch + 1, rest.skip(0))
                =~= Seq::<Seq<char>>::empty());
            assert(log =~= progress.log + own + closing_lines(repository, count));
            assert(log_of(run_on(start, digests)) =~= progress.log + lines_of_tags(
                repository,
                execute,
                tags,
                progress.item,
                digests.take(here),
            ) + lines_of_batches(
                repository,
                execute,
                plan,
                progress.batch + 1,
                digests.skip(here),
            ) + closing_lines(repository, count_of(run_on(start, digests))));
        },
    }
}

/// The log of a whole run, with a reply for each tag of the plan: batch by
/// batch the announcement of the batch and the lines of its tags, in the
/// order of the plan, and at the end the line that nothing was to be deleted
/// where nothing was counted.
pub proof fn lemma_whole_log(
    repository: Seq<char>,
    execute: bool,
    plan: Seq<BatchView>,
    digests: Seq<Option<Seq<char>>>,
)
    requires
        holds_tags(plan),
        digests.len() == tags_from(plan, 0),
    ensures
        log_of(run_on(opening(repository, execute, plan), digests)) == lines_of_batches(
            repository,
            execute,
            plan,
            0,
            digests,
        ) + closing_lines(repository, resolved_among(digests).len()),
{
    lemma_whole_run(repository, execute, plan, digests);
    match opening(repository, execute, plan) {
        StepView::Resolve(progress) => {
            lemma_log_from(progress, digests);
            let tags = plan[0].tags;
            assert(log_of(run_on(opening(repository, execute, plan), digests))
                =~= lines_of_batches(repository, execute, plan, 0, digests) + closing_lines(
                repository,
                resolved_among(digests).len(),
            ));
        },
        _ => {
            assert(log_of(run_on(opening(repository, execute, plan), digests))
                =~= lines_of_batches(repository, execute, plan, 0, digests) + closing_lines(
                repository,
                resolved_among(digests).len(),
            ));
        },
    }
}

/// Where a run stands.
struct Progress {
    repository: String,
    execute: bool,
    plan: Vec<RemovalBatch>,
    batch: usize,
    item: usize,
    log: Vec<String>,
    count: usize,
}

impl View for Progress {
    type V = ProgressView;

    closed spec fn view(&self) -> ProgressView {
        ProgressView {
            repository: self.repository@,
            execute: self.execute,
            plan: batch_views(self.plan@),
            batch: self.batch as int,
            item: self.item as int,
            log: texts(self.log@),
            count: self.count as nat,
        }
    }
}

impl Progress {
    #[verifier::type_invariant]
    spec fn in_plan(&self) -> bool {
        &&& forall|i: int| 0 <= i < self.plan@.len() ==> (#[trigger] self.plan@[i]).tags@.len() > 0
        &&& self.batch < self.plan@.len()
        &&& self.item < self.plan@[self.batch as int].tags@.len()
        &&& self.count <= self.log@.len()
    }

    fn tag(&self) -> (tag: &str)
        ensures
            tag@ == current_tag(self@),
    {
        proof {
            use_type_invariant(self);
        }
        self.plan[self.batch].tags[self.item].as_str()
    }

    /// Writes a line at the end of the log, and counts the current tag where
    /// `counted` says so.
    fn note(self, line: String, counted: bool) -> (noted: Progress)
        ensures
            noted@ == (ProgressView {
                log: self@.log.push(line@),
                count: if counted {
                    self@.count + 1
                } else {
                    self@.count
                },
                ..self@
            }),
    {
        proof {
            use_type_invariant(&self);
        }
        let Progress { repository, execute, plan, batch, item, log, count } = self;
        let mut log = log;
        log.push(line);
        proof {
            vstd::std_specs::vec::axiom_spec_len(&log);
        }
        let count: usize = if counted {
            count + 1
        } else {
            count
        };
        let noted = Progress { repository, execute, plan, batch, item, log, count };
        proof {
            assert(noted@.log =~= self@.log.push(line@));
        }
        noted
    }

    /// Goes on behind the current tag.
    fn advance(self) -> (step: WorkerStep)
        ensures
            step@ == following(self@),
    {
        proof {
            use_type_invariant(&self);
        }
        let Progress { repository, execute, plan, batch, item, log, count } = self;
        if item < plan[batch].tags.len() - 1 {
            WorkerStep::Resolve(
                PendingDigest {
                    progress: Progress { repository, execute, plan, batch, item: item + 1, log, count },
                },
            )
        } else if batch < plan.len() - 1 {
            let mut log = log;
            let line = write_eligible(
                repository.as_str(),
                plan[batch + 1].tags.len(),
                plan[batch + 1].pattern.as_str(),
            );
            log.push(line);
            let progress = Progress {
                repository,
                execute,
                plan,
                batch: batch + 1,
                item: 0,
                log,
                count,
            };
            proof {
                assert(progress@.log =~= self@.log.push(line@));
            }
            WorkerStep::Resolve(PendingDigest { progress })
        } else if count == 0 {
            let mut log = log;
            let line = write_nothing_eligible(repository.as_str());
            log.push(line);
            proof {
                assert(texts(log@) =~= self@.log.push(line@));
            }
            WorkerStep::Done(RunOutcome { log, count: 0 })
        } else {
            WorkerStep::Done(RunOutcome { log, count })
        }
    }
}

/// A run that waits for the digest of its current tag.
pub struct PendingDigest {
    progress: Progress,
}

/// A run that waits for the deletion of the manifest of its current tag.
pub struct PendingDelete {
    progress: Progress,
    digest: String,
}

/// A step of a run: the one call to make to the registry next, or the
/// outcome of the run.
pub enum WorkerStep {
    /// Resolve the digest of the pending tag.
    Resolve(PendingDigest),
    /// Delete the manifest with the pending digest.
    Delete(PendingDelete),
    /// The run has ended.
    Done(RunOutcome),
}

impl View for PendingDigest {
    type V = ProgressView;

    closed spec fn view(&self) -> ProgressView {
        self.progress@
    }
}

impl View for PendingDelete {
    type V = (ProgressView, Seq<char>);

    closed spec fn view(&self) -> (ProgressView, Seq<char>) {
        (self.progress@, self.digest@)
    }
}

impl View for WorkerStep {
    type V = StepView;

    open spec fn view(&self) -> StepView {
        match self {
            WorkerStep::Resolve(pending) => StepView::Resolve(pending@),
            WorkerStep::Delete(pending) => StepView::Delete(pending@.0, pending@.1),
            WorkerStep::Done(outcome) => StepView::Done(texts(outcome.log@), outcome.count as nat),
        }
    }
}

/// Ends the run of a repository whose tags could not be listed: the run has
/// no outcome and no log, only the failure.
pub fn listing_failed(repository: String, message: String) -> (error: RepositoryError)
    ensures
        error.repository@ == repository@,
        error.message@ == message@,
{
    RepositoryError { repository, message }
}

/// Begins the run of a repository with a plan of removals.
pub fn begin(repository: String, execute: bool, plan: RemovalPlan) -> (step: WorkerStep)
    ensures
        step@ == opening(repository@, execute, plan@),
{
    proof {
        use_type_invariant(&plan);
    }
    let batches = plan.batches;
    let mut log: Vec<String> = Vec::new();
    if batches.len() == 0 {
        let line = write_nothing_eligible(repository.as_str());
        log.push(line);
        proof {
            assert(texts(log@) =~= seq![line@]);
        }
        WorkerStep::Done(RunOutcome { log, count: 0 })
    } else {
        let line = write_eligible(
            repository.as_str(),
            batches[0].tags.len(),
            batches[0].pattern.as_str(),
        );
        log.push(line);
        let progress = Progress {
            repository,
            execute,
            plan: batches,
            batch: 0,
            item: 0,
            log,
            count: 0,
        };
        proof {
            assert(progress@.log =~= seq![line@]);
        }
        WorkerStep::Resolve(PendingDigest { progress })
    }
}

/// Begins the run of a repository with the listing of its tags: sorts the
/// tags into buckets, plans the removals and takes the first step.
pub fn begin_with_tags(
    repository: String,
    tag_list: &ImageTagList,
    rules: &Vec<CompiledRule>,
    max_per_tag: usize,
    semver: bool,
    execute: bool,
) -> (step: WorkerStep)
    ensures
        opens_run_of(
            tag_list@,
            patterns_of(rules@),
            max_per_tag as int,
            semver,
            repository@,
            execute,
            step@,
        ),
{
    let buckets = get_matching_tags(tag_list, rules);
    let plan = plan_removals(&buckets, max_per_tag, semver);
    let ghost planned = plan@;
    let step = begin(repository, execute, plan);
    proof {
        assert(lists(classification(tag_list@, patterns_of(rules@)), buckets.names(), buckets.contents()));
        assert(is_plan_for(
            buckets.names(),
            buckets.contents(),
            max_per_tag as int,
            semver,
            planned,
        ));
    }
    step
}

impl PendingDigest {
    /// The repository of the run.
    pub fn repository(&self) -> (repository: &str)
        ensures
            repository@ == self@.repository,
    {
        self.progress.repository.as_str()
    }

    /// The tag whose digest is to be resolved.
    pub fn tag(&self) -> (tag: &str)
        ensures
            tag@ == current_tag(self@),
    {
        self.progress.tag()
    }

    /// Takes the reply to the digest request: the digest of the tag's
    /// manifest, or none where the registry has no such manifest.
    pub fn resolved(self, digest: Option<String>) -> (step: WorkerStep)
        ensures
            step@ == after_digest(
                self@,
                match digest {
                    Some(found) => Some(found@),
                    None => None,
                },
            ),
    {
        let progress = self.progress;
        match digest {
            None => {
                let line = write_missing_digest(progress.repository.as_str(), progress.tag());
                progress.note(line, false).advance()
            },
            Some(found) => {
                let line = write_to_be_deleted(progress.repository.as_str(), progress.tag());
                if progress.execute {
                    WorkerStep::Delete(
                        PendingDelete { progress: progress.note(line, false), digest: found },
                    )
                } else {
                    progress.note(line, true).advance()
                }
            },
        }
    }

    /// Ends the run with a failure of the digest request.
    pub fn failed(self, message: String) -> (error: RepositoryError)
        ensures
            error.repository@ == self@.repository,
            error.message@ == message@,
    {
        RepositoryError { repository: self.progress.repository, message }
    }
}

impl PendingDelete {
    /// The repository of the run.
    pub fn repository(&self) -> (repository: &str)
        ensures
            repository@ == self@.0.repository,
    {
        self.progress.repository.as_str()
    }

    /// The tag whose manifest is to be deleted.
    pub fn tag(&self) -> (tag: &str)
        ensures
            tag@ == current_tag(self@.0),
    {
        self.progress.tag()
    }

    /// The digest of the manifest that is to be deleted.
    pub fn digest(&self) -> (digest: &str)
        ensures
            digest@ == self@.1,
    {
        self.digest.as_str()
    }

    /// Takes the news that the deletion succeeded.
    pub fn deleted(self) -> (step: WorkerStep)
        ensures
            step@ == after_delete(self@.0),
    {
        let progress = self.progress;
        let line = write_deleted(progress.repository.as_str(), progress.tag());
        progress.note(line, true).advance()
    }

    /// Ends the run with a failure of the deletion.
    pub fn failed(self, message: String) -> (error: RepositoryError)
        ensures
            error.repository@ == self@.0.repository,
            error.message@ == message@,
    {
        RepositoryError { repository: self.progress.repository, message }
    }
}

} // verus!
