//! The retention ranker: orders the tags of one bucket from the highest rank
//! down and splits them into the tags to keep and the tags to remove.

use crate::text::{
    lemma_text_order_antisymmetric, lemma_text_order_total, lemma_text_order_transitive,
    str_at_least, text_at_least, texts,
};
use crate::versions::{
    is_version_tag, names_version, semver_at_least, version_tag_at_least, version_text,
};
use vstd::multiset::*;
use vstd::prelude::*;
use vstd::seq_lib::*;

verus! {

/// Whether tag `a` ranks at or above tag `b`: by version in semver mode, by
/// the order of strings otherwise.
pub open spec fn ranks_at_least(a: Seq<char>, b: Seq<char>, semver: bool) -> bool {
    if semver {
        semver_at_least(version_text(a), version_text(b))
    } else {
        text_at_least(a, b)
    }
}

/// Whether a tag takes part in the ranking: every tag does in lexicographic
/// mode, and in semver mode the tags that name a version.
pub open spec fn takes_part(tag: Seq<char>, semver: bool) -> bool {
    semver ==> is_version_tag(tag)
}

/// The test for taking part in the ranking.
pub open spec fn taking_part(semver: bool) -> spec_fn(Seq<char>) -> bool {
    |tag: Seq<char>| takes_part(tag, semver)
}

/// The tags that take part in the ranking, in their given order.
pub open spec fn eligible(tags: Seq<Seq<char>>, semver: bool) -> Seq<Seq<char>> {
    tags.filter(taking_part(semver))
}

/// Whether the tags stand in descending order of rank.
pub open spec fn descending(tags: Seq<Seq<char>>, semver: bool) -> bool {
    forall|i: int, j: int| 0 <= i < j < tags.len() ==> ranks_at_least(tags[i], tags[j], semver)
}

/// Whether `ranked` is a ranking of `tags`: it holds the tags that take part,
/// each as often as `tags` does, in descending order of rank.
pub open spec fn is_ranking(tags: Seq<Seq<char>>, semver: bool, ranked: Seq<Seq<char>>) -> bool {
    &&& ranked.to_multiset() == eligible(tags, semver).to_multiset()
    &&& descending(ranked, semver)
}

/// How many tags are kept of `count` ranked tags under the limit `limit`.
pub open spec fn kept(limit: int, count: int) -> int {
    if limit <= count {
        limit
    } else {
        count
    }
}

/// Whether tag `a` ranks at or above tag `b`. Besides the answer, the caller
/// learns what the order being total and transitive gives for this pair.
fn tag_ranks_at_least(a: &str, b: &str, semver: bool) -> (r: bool)
    requires
        takes_part(a@, semver),
        takes_part(b@, semver),
    ensures
        r == ranks_at_least(a@, b@, semver),
        !r ==> ranks_at_least(b@, a@, semver),
        r ==> forall|c: Seq<char>|
            #![trigger ranks_at_least(c, a@, semver)]
            takes_part(c, semver) && ranks_at_least(c, a@, semver) ==> ranks_at_least(
                c,
                b@,
                semver,
            ),
        !r ==> forall|c: Seq<char>|
            #![trigger ranks_at_least(a@, c, semver)]
            takes_part(c, semver) && ranks_at_least(a@, c, semver) ==> ranks_at_least(
                b@,
                c,
                semver,
            ),
{
    if semver {
        version_tag_at_least(a, b)
    } else {
        let r = str_at_least(a, b);
        proof {
            lemma_text_order_total(a@, b@);
            if r {
                assert forall|c: Seq<char>| text_at_least(c, a@) implies text_at_least(c, b@) by {
                    lemma_text_order_transitive(c, a@, b@);
                }
            } else {
                assert forall|c: Seq<char>| text_at_least(a@, c) implies text_at_least(b@, c) by {
                    lemma_text_order_transitive(b@, a@, c);
                }
            }
        }
        r
    }
}

/// Puts `tag` into the ranked list at a place that keeps the list in
/// descending order.
fn insert_ranked(ranked: &mut Vec<String>, tag: String, semver: bool)
    requires
        descending(texts(old(ranked)@), semver),
        forall|i: int| 0 <= i < old(ranked)@.len() ==> takes_part(#[trigger] old(ranked)@[i]@, semver),
        takes_part(tag@, semver),
    ensures
        descending(texts(final(ranked)@), semver),
        forall|i: int| 0 <= i < final(ranked)@.len() ==> takes_part(#[trigger] final(ranked)@[i]@, semver),
        texts(final(ranked)@).to_multiset() == texts(old(ranked)@).to_multiset().insert(tag@),
{
    let mut lo: usize = 0;
    let mut hi: usize = ranked.len();
    while lo < hi
        invariant
            lo <= hi <= ranked@.len(),
            ranked@ == old(ranked)@,
            descending(texts(ranked@), semver),
            forall|i: int| 0 <= i < ranked@.len() ==> takes_part(#[trigger] ranked@[i]@, semver),
            takes_part(tag@, semver),
            forall|i: int| 0 <= i < lo ==> ranks_at_least(#[trigger] ranked@[i]@, tag@, semver),
            forall|i: int| hi <= i < ranked@.len() ==> ranks_at_least(tag@, #[trigger] ranked@[i]@, semver),
        decreases hi - lo,
    {
        let mid: usize = lo + (hi - lo) / 2;
        let ghost pivot = ranked@[mid as int]@;
        assert(texts(ranked@)[mid as int] == pivot);
        if tag_ranks_at_least(ranked[mid].as_str(), tag.as_str(), semver) {
            assert forall|i: int| 0 <= i < mid + 1 implies ranks_at_least(
                #[trigger] ranked@[i]@,
                tag@,
                semver,
            ) by {
                if i < mid {
                    assert(ranks_at_least(texts(ranked@)[i], texts(ranked@)[mid as int], semver));
                }
            }
            lo = mid + 1;
        } else {
            assert forall|i: int| mid <= i < ranked@.len() implies ranks_at_least(
                tag@,
                #[trigger] ranked@[i]@,
                semver,
            ) by {
                if mid < i {
                    assert(ranks_at_least(texts(ranked@)[mid as int], texts(ranked@)[i], semver));
                }
            }
            hi = mid;
        }
    }
    proof {
        let before = texts(ranked@);
        let after = before.insert(lo as int, tag@);
        assert(texts(ranked@.insert(lo as int, tag)) =~= after);
        to_multiset_insert(before, lo as int, tag@);
        assert forall|i: int, j: int| 0 <= i < j < after.len() implies ranks_at_least(
            after[i],
            after[j],
            semver,
        ) by {
            if j < lo {
                assert(ranks_at_least(before[i], before[j], semver));
            } else if j == lo {
                assert(before[i] == ranked@[i]@);
            } else if i < lo {
                assert(ranks_at_least(before[i], before[j - 1], semver));
            } else if i == lo {
                assert(before[j - 1] == ranked@[j - 1]@);
            } else {
                assert(ranks_at_least(before[i - 1], before[j - 1], semver));
            }
        }
    }
    ranked.insert(lo, tag);
}

/// How often a tag occurs among the tags that pass a test: as often as among
/// all the tags where it passes, and not at all where it fails.
pub proof fn lemma_filter_count(tags: Seq<Seq<char>>, test: spec_fn(Seq<char>) -> bool, tag: Seq<char>)
    ensures
        tags.filter(test).to_multiset().count(tag) == if test(tag) {
            tags.to_multiset().count(tag)
        } else {
            0
        },
    decreases tags.len(),
{
    if tags.len() == 0 {
        assert(tags.filter(test) =~= Seq::<Seq<char>>::empty()) by {
            tags.lemma_filter_len(test);
        }
        assert(tags =~= Seq::<Seq<char>>::empty());
        tags.to_multiset_ensures();
        assert(tags.to_multiset() =~= Multiset::<Seq<char>>::empty()) by {
            assert(tags.to_multiset().len() == 0);
        }
    } else {
        let front = tags.drop_last();
        let last = tags.last();
        assert(tags =~= front.push(last));
        lemma_filter_count(front, test, tag);
        front.lemma_filter_push(last, test);
        to_multiset_build(front, last);
        to_multiset_build(front.filter(test), last);
    }
}

/// In lexicographic mode a ranking drops no tag: it holds every given tag,
/// each as often as it was given.
pub proof fn lemma_lexicographic_ranking_keeps_all(tags: Seq<Seq<char>>, ranked: Seq<Seq<char>>)
    requires
        is_ranking(tags, false, ranked),
    ensures
        ranked.to_multiset() == tags.to_multiset(),
        ranked.len() == tags.len(),
{
    assert forall|tag: Seq<char>| ranked.to_multiset().count(tag) == tags.to_multiset().count(
        tag,
    ) by {
        lemma_filter_count(tags, taking_part(false), tag);
    }
    assert(ranked.to_multiset() =~= tags.to_multiset());
    to_multiset_len(ranked);
    to_multiset_len(tags);
}

/// In semver mode a ranking drops exactly the tags that name no version: a
/// tag that names a version occurs in it as often as it was given, and a tag
/// that names none does not occur in it.
pub proof fn lemma_semver_ranking_keeps_versions(
    tags: Seq<Seq<char>>,
    ranked: Seq<Seq<char>>,
    tag: Seq<char>,
)
    requires
        is_ranking(tags, true, ranked),
    ensures
        is_version_tag(tag) ==> ranked.to_multiset().count(tag) == tags.to_multiset().count(tag),
        !is_version_tag(tag) ==> !ranked.contains(tag),
{
    lemma_filter_count(tags, taking_part(true), tag);
    to_multiset_contains(ranked, tag);
}

/// The tags kept and the tags removed have no tag in common, where no tag was
/// given twice.
pub proof fn lemma_keep_and_remove_disjoint(
    tags: Seq<Seq<char>>,
    semver: bool,
    keep: Seq<Seq<char>>,
    remove: Seq<Seq<char>>,
)
    requires
        is_ranking(tags, semver, keep + remove),
        tags.no_duplicates(),
    ensures
        forall|i: int, j: int|
            0 <= i < keep.len() && 0 <= j < remove.len() ==> keep[i] != remove[j],
{
    let ranked = keep + remove;
    tags.lemma_multiset_has_no_duplicates();
    assert forall|tag: Seq<char>| ranked.to_multiset().contains(tag) implies ranked.to_multiset().count(
        tag,
    ) == 1 by {
        lemma_filter_count(tags, taking_part(semver), tag);
    }
    ranked.lemma_multiset_has_no_duplicates_conv();
    assert forall|i: int, j: int| 0 <= i < keep.len() && 0 <= j < remove.len() implies keep[i]
        != remove[j] by {
        assert(ranked[i] == keep[i]);
        assert(ranked[keep.len() + j] == remove[j]);
    }
}

/// Every tag that is kept ranks at or above every tag that is removed.
pub proof fn lemma_kept_rank_above_removed(
    tags: Seq<Seq<char>>,
    semver: bool,
    keep: Seq<Seq<char>>,
    remove: Seq<Seq<char>>,
)
    requires
        is_ranking(tags, semver, keep + remove),
    ensures
        forall|i: int, j: int|
            0 <= i < keep.len() && 0 <= j < remove.len() ==> ranks_at_least(
                #[trigger] keep[i],
                #[trigger] remove[j],
                semver,
            ),
{
    let ranked = keep + remove;
    assert forall|i: int, j: int| 0 <= i < keep.len() && 0 <= j < remove.len() implies ranks_at_least(
        #[trigger] keep[i],
        #[trigger] remove[j],
        semver,
    ) by {
        assert(ranks_at_least(ranked[i], ranked[keep.len() + j], semver));
    }
}

/// In lexicographic mode the tags have one ranking only.
pub proof fn lemma_lexicographic_ranking_unique(
    tags: Seq<Seq<char>>,
    first: Seq<Seq<char>>,
    second: Seq<Seq<char>>,
)
    requires
        is_ranking(tags, false, first),
        is_ranking(tags, false, second),
    ensures
        first == second,
{
    lemma_descending_unique(first, second);
}

/// Two lists in descending order of strings that hold the same strings
/// equally often are the same list.
proof fn lemma_descending_unique(first: Seq<Seq<char>>, second: Seq<Seq<char>>)
    requires
        descending(first, false),
        descending(second, false),
        first.to_multiset() == second.to_multiset(),
    ensures
        first == second,
    decreases first.len(),
{
    to_multiset_len(first);
    to_multiset_len(second);
    if first.len() == 0 {
        assert(first =~= second);
    } else {
        let a = first[0];
        let b = second[0];
        to_multiset_contains(first, a);
        to_multiset_contains(first, b);
        to_multiset_contains(second, a);
        to_multiset_contains(second, b);
        let i = choose|i: int| 0 <= i < first.len() && first[i] == b;
        let j = choose|j: int| 0 <= j < second.len() && second[j] == a;
        assert(text_at_least(a, b)) by {
            if i > 0 {
                assert(ranks_at_least(first[0], first[i], false));
            } else {
                lemma_text_order_total(a, b);
            }
        }
        assert(text_at_least(b, a)) by {
            if j > 0 {
                assert(ranks_at_least(second[0], second[j], false));
            } else {
                lemma_text_order_total(a, b);
            }
        }
        lemma_text_order_antisymmetric(a, b);
        to_multiset_remove(first, 0);
        to_multiset_remove(second, 0);
        assert(first.remove(0) =~= first.drop_first());
        assert(second.remove(0) =~= second.drop_first());
        assert forall|i: int, j: int| 0 <= i < j < first.drop_first().len() implies ranks_at_least(
            first.drop_first()[i],
            first.drop_first()[j],
            false,
        ) by {
            assert(ranks_at_least(first[i + 1], first[j + 1], false));
        }
        assert forall|i: int, j: int| 0 <= i < j < second.drop_first().len() implies ranks_at_least(
            second.drop_first()[i],
            second.drop_first()[j],
            false,
        ) by {
            assert(ranks_at_least(second[i + 1], second[j + 1], false));
        }
        lemma_descending_unique(first.drop_first(), second.drop_first());
        assert(first =~= seq![a] + first.drop_first());
        assert(second =~= seq![b] + second.drop_first());
    }
}

/// Ranks the tags: the result holds the tags that take part, in descending
/// order of rank. Tags of equal rank may come in either order.
pub fn rank_tags(tags: &Vec<String>, semver: bool) -> (ranked: Vec<String>)
    ensures
        is_ranking(texts(tags@), semver, texts(ranked@)),
        forall|i: int| 0 <= i < ranked@.len() ==> takes_part(#[trigger] ranked@[i]@, semver),
{
    let mut ranked: Vec<String> = Vec::new();
    let ghost all = texts(tags@);
    let ghost pred = taking_part(semver);
    proof {
        assert(all.take(0) =~= Seq::<Seq<char>>::empty());
        assert(all.take(0).filter(pred) =~= Seq::<Seq<char>>::empty()) by {
            reveal(Seq::filter);
        }
        assert(texts(ranked@) =~= Seq::<Seq<char>>::empty());
    }
    let mut i: usize = 0;
    while i < tags.len()
        invariant
            i <= tags@.len(),
            all == texts(tags@),
            pred == taking_part(semver),
            descending(texts(ranked@), semver),
            forall|k: int| 0 <= k < ranked@.len() ==> takes_part(#[trigger] ranked@[k]@, semver),
            texts(ranked@).to_multiset() == all.take(i as int).filter(pred).to_multiset(),
        decreases tags@.len() - i,
    {
        let tag = tags[i].clone();
        proof {
            assert(all.take(i + 1) =~= all.take(i as int).push(tag@));
            all.take(i as int).lemma_filter_push(tag@, pred);
            to_multiset_build(all.take(i as int).filter(pred), tag@);
        }
        if !semver || names_version(tag.as_str()) {
            insert_ranked(&mut ranked, tag, semver);
        }
        i = i + 1;
    }
    proof {
        assert(all.take(i as int) =~= all);
    }
    ranked
}

/// Splits a ranked list at the limit: the first `limit` tags are kept, or all
/// of them where there are no more than that, and the rest is to be removed.
pub fn split_ranked(ranked: Vec<String>, limit: usize) -> (split: (Vec<String>, Vec<String>))
    ensures
        split.0@ == ranked@.take(kept(limit as int, ranked@.len() as int)),
        split.1@ == ranked@.skip(kept(limit as int, ranked@.len() as int)),
{
    let mut keep = ranked;
    let n: usize = if limit <= keep.len() {
        limit
    } else {
        keep.len()
    };
    let remove = keep.split_off(n);
    (keep, remove)
}

/// Ranks the tags of one bucket and splits them into the tags to keep and the
/// tags to remove: the `num_tags` highest ranked are kept, the others are to
/// be removed. In semver mode the tags that name no version are in neither
/// list.
pub fn classify_tags(tags: Vec<String>, num_tags: usize, semver: bool) -> (split: (
    Vec<String>,
    Vec<String>,
))
    ensures
        is_ranking(texts(tags@), semver, texts(split.0@) + texts(split.1@)),
        split.0@.len() == kept(num_tags as int, eligible(texts(tags@), semver).len() as int),
{
    let ranked = rank_tags(&tags, semver);
    proof {
        let n = kept(num_tags as int, ranked@.len() as int);
        assert(texts(ranked@.take(n)) + texts(ranked@.skip(n)) =~= texts(ranked@));
        to_multiset_len(texts(ranked@));
        to_multiset_len(eligible(texts(tags@), semver));
    }
    split_ranked(ranked, num_tags)
}

} // verus!
